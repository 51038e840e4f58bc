//! Python dataclasses as source text.

use crate::text;
use crate::text::indentation;
use vstd::prelude::*;

verus! {

/// The name and type of an argument.
pub type NameAndType = (Seq<char>, Seq<char>);

/// A field of a dataclass, and how far its line is indented.
#[verifier::ext_equal]
pub struct ItemModel {
    pub indent: nat,
    pub name: Seq<char>,
    pub ty: Seq<char>,
}

/// The constructor of a dataclass: its arguments besides `self`, and the lines of its body.
#[verifier::ext_equal]
pub struct InitModel {
    pub indent: nat,
    pub args: Seq<NameAndType>,
    pub body: Seq<Seq<char>>,
}

/// A dataclass with the classes defined in it, its fields, and its constructor, if it is not the
/// generated one.
#[verifier::ext_equal]
pub struct ClassModel {
    pub indent: nat,
    pub name: Seq<char>,
    pub inclasses: Seq<ClassModel>,
    pub items: Seq<ItemModel>,
    pub init: Option<InitModel>,
}

/// Each line with its newline.
pub open spec fn unlines(lines: Seq<Seq<char>>) -> Seq<char>
    decreases lines.len(),
{
    if lines.len() == 0 {
        seq![]
    } else {
        unlines(lines.drop_last()) + lines.last() + "\n"@
    }
}

/// The arguments of a constructor behind `self`.
pub open spec fn args_text(args: Seq<NameAndType>) -> Seq<char>
    decreases args.len(),
{
    if args.len() == 0 {
        seq![]
    } else {
        args_text(args.drop_last()) + ", "@ + args.last().0 + ": "@ + args.last().1
    }
}

impl ItemModel {
    /// The line that declares the field.
    pub open spec fn line(self) -> Seq<char> {
        text::spaces(self.indent) + self.name + ": "@ + self.ty
    }

    /// The field, indented by `indent`.
    pub open spec fn with_indent(self, indent: nat) -> ItemModel {
        ItemModel { indent, ..self }
    }
}

impl InitModel {
    /// The line at the head of the constructor.
    pub open spec fn signature(self) -> Seq<char> {
        text::spaces(self.indent) + "def __init__(self"@ + args_text(self.args) + "):"@
    }

    /// The `i`-th line of the body: one step further in than the head.
    pub open spec fn body_line(self, i: int) -> Seq<char> {
        text::spaces(self.indent) + "    "@ + self.body[i]
    }

    /// The lines of the constructor.
    pub open spec fn lines(self) -> Seq<Seq<char>> {
        seq![self.signature()] + Seq::new(self.body.len(), |i: int| self.body_line(i))
    }

    /// The constructor, indented by `indent`.
    pub open spec fn with_indent(self, indent: nat) -> InitModel {
        InitModel { indent, ..self }
    }
}

impl ClassModel {
    /// The decorator line and the line that opens the class.
    pub open spec fn head(self) -> Seq<Seq<char>> {
        seq![
            text::spaces(self.indent) + "@dataclass(init="@ + (if self.init is Some {
                "False"@
            } else {
                "True"@
            }) + ")"@,
            text::spaces(self.indent) + "class "@ + self.name + ":"@,
        ]
    }

    /// The lines of the fields.
    pub open spec fn item_lines(self) -> Seq<Seq<char>> {
        self.items.map_values(|item: ItemModel| item.line())
    }

    /// The lines of the constructor, if there is one.
    pub open spec fn init_lines(self) -> Seq<Seq<char>> {
        match self.init {
            Some(init) => init.lines(),
            None => seq![],
        }
    }

    /// The lines of the class: its head, the inner classes, the fields, the constructor.
    pub open spec fn lines(self) -> Seq<Seq<char>>
        decreases self,
    {
        self.head() + inner_lines(self.inclasses) + self.item_lines() + self.init_lines()
    }

    /// The source text of the class.
    pub open spec fn text(self) -> Seq<char> {
        unlines(self.lines())
    }

    /// The class indented by `indent`, with everything in it four columns further in.
    pub open spec fn with_indent(self, indent: nat) -> ClassModel
        decreases self,
    {
        ClassModel {
            indent,
            name: self.name,
            inclasses: Seq::new(
                self.inclasses.len(),
                |i: int|
                    if 0 <= i < self.inclasses.len() {
                        self.inclasses[i].with_indent(indent + 4)
                    } else {
                        self
                    },
            ),
            items: self.items.map_values(|item: ItemModel| item.with_indent(indent + 4)),
            init: match self.init {
                Some(init) => Some(init.with_indent(indent + 4)),
                None => None,
            },
        }
    }

    /// The class with `inclass` as the last of its inner classes.
    pub open spec fn with_inclass(self, inclass: ClassModel) -> ClassModel {
        ClassModel {
            inclasses: self.inclasses.push(inclass.with_indent(self.indent + 4)),
            ..self
        }
    }

    /// The class with `item` as the last of its fields.
    pub open spec fn with_item(self, item: ItemModel) -> ClassModel {
        ClassModel { items: self.items.push(item.with_indent(self.indent + 4)), ..self }
    }

    /// The class with `init` as its constructor.
    pub open spec fn with_init(self, init: Option<InitModel>) -> ClassModel {
        ClassModel {
            init: match init {
                Some(init) => Some(init.with_indent(self.indent + 4)),
                None => None,
            },
            ..self
        }
    }

    /// Everything in the class, at every depth, is four columns further in than what it is in.
    pub open spec fn aligned(self) -> bool
        decreases self,
    {
        &&& forall|i: int|
            0 <= i < self.inclasses.len() ==> (#[trigger] self.inclasses[i]).indent == self.indent
                + 4 && self.inclasses[i].aligned()
        &&& forall|i: int|
            0 <= i < self.items.len() ==> (#[trigger] self.items[i]).indent == self.indent + 4
        &&& self.init matches Some(init) ==> init.indent == self.indent + 4
    }

    /// Whether there is anything in the class.
    pub open spec fn has_parts(self) -> bool {
        self.inclasses.len() > 0 || self.items.len() > 0 || self.init is Some
    }

    /// Indenting the class by `indent` needs no column beyond the largest `usize`.
    pub open spec fn fits(self, indent: nat) -> bool
        decreases self,
    {
        &&& indent <= usize::MAX
        &&& self.has_parts() ==> indent + 4 <= usize::MAX
        &&& forall|i: int|
            0 <= i < self.inclasses.len() ==> (#[trigger] self.inclasses[i]).fits(indent + 4)
    }
}

/// The lines of inner classes, each class followed by an empty line.
pub open spec fn inner_lines(classes: Seq<ClassModel>) -> Seq<Seq<char>>
    decreases classes,
{
    if classes.len() == 0 {
        seq![]
    } else {
        inner_lines(classes.drop_last()) + classes[classes.len() - 1].lines() + seq![seq![]]
    }
}

/// A field of a dataclass.
pub struct DataclassItem {
    indent: usize,
    name: String,
    ty: String,
}

impl View for DataclassItem {
    type V = ItemModel;

    closed spec fn view(&self) -> ItemModel {
        ItemModel { indent: self.indent as nat, name: self.name@, ty: self.ty@ }
    }
}

/// The arguments of a constructor, besides `self`.
pub struct InitArgs {
    pairs: Vec<(String, String)>,
}

impl View for InitArgs {
    type V = Seq<NameAndType>;

    closed spec fn view(&self) -> Seq<NameAndType> {
        self.pairs@.map_values(|pair: (String, String)| (pair.0@, pair.1@))
    }
}

/// The constructor of a dataclass.
pub struct DataclassInit {
    indent: usize,
    args: InitArgs,
    body: Vec<String>,
}

impl View for DataclassInit {
    type V = InitModel;

    closed spec fn view(&self) -> InitModel {
        InitModel { indent: self.indent as nat, args: self.args@, body: text::views(self.body@) }
    }
}

/// A dataclass.
pub struct Dataclass {
    indent: usize,
    name: String,
    inclasses: Vec<Dataclass>,
    items: Vec<DataclassItem>,
    init: Option<DataclassInit>,
}

impl Dataclass {
    closed spec fn model(self) -> ClassModel
        decreases self,
    {
        ClassModel {
            indent: self.indent as nat,
            name: self.name@,
            inclasses: Seq::new(
                self.inclasses@.len(),
                |i: int|
                    if 0 <= i < self.inclasses@.len() {
                        self.inclasses@[i].model()
                    } else {
                        arbitrary()
                    },
            ),
            items: self.items@.map_values(|item: DataclassItem| item@),
            init: match self.init {
                Some(init) => Some(init@),
                None => None,
            },
        }
    }
}

impl View for Dataclass {
    type V = ClassModel;

    closed spec fn view(&self) -> ClassModel {
        self.model()
    }
}

/// The model of an optional constructor.
pub open spec fn init_view(init: Option<DataclassInit>) -> Option<InitModel> {
    match init {
        Some(init) => Some(init@),
        None => None,
    }
}

/// A class without anything in it, not indented.
pub open spec fn empty_class(name: Seq<char>) -> ClassModel {
    ClassModel { indent: 0, name, inclasses: seq![], items: seq![], init: None }
}

impl DataclassItem {
    /// A field that is not indented yet.
    pub fn new(name: String, ty: String) -> (res: Self)
        ensures
            res@ == (ItemModel { indent: 0, name: name@, ty: ty@ }),
    {
        DataclassItem { indent: 0, name, ty }
    }

    /// Indents the field by `indent` and returns its indentation before.
    pub fn set_indent(&mut self, indent: usize) -> (res: usize)
        ensures
            final(self)@ == old(self)@.with_indent(indent as nat),
            res == old(self)@.indent,
    {
        let before = self.indent;
        self.indent = indent;
        before
    }

    /// Writes the line that declares the field, without a newline.
    pub fn render(&self) -> (res: String)
        ensures
            res@ == self@.line(),
    {
        let mut res = indentation(self.indent);
        res.append(self.name.as_str());
        res.append(": ");
        res.append(self.ty.as_str());
        res
    }
}

impl InitArgs {
    /// No arguments.
    pub fn new() -> (res: Self)
        ensures
            res@ == Seq::<NameAndType>::empty(),
    {
        let res = InitArgs { pairs: Vec::new() };
        assert(res@ =~= Seq::<NameAndType>::empty());
        res
    }

    /// Adds an argument behind the others.
    pub fn add(&mut self, name: String, ty: String)
        ensures
            final(self)@ == old(self)@.push((name@, ty@)),
    {
        self.pairs.push((name, ty));
        assert(self@ =~= old(self)@.push((name@, ty@)));
    }

    /// Writes the arguments, each behind a comma.
    pub fn render(&self) -> (res: String)
        ensures
            res@ == args_text(self@),
    {
        let mut res = String::new();
        let mut i: usize = 0;
        let ghost args = self@;
        assert(args.take(0) =~= seq![]);
        while i < self.pairs.len()
            invariant
                i <= self.pairs@.len(),
                args == self@,
                res@ == args_text(args.take(i as int)),
            decreases self.pairs@.len() - i,
        {
            res.append(", ");
            res.append(self.pairs[i].0.as_str());
            res.append(": ");
            res.append(self.pairs[i].1.as_str());
            assert(args.take(i + 1).drop_last() =~= args.take(i as int));
            assert(args.take(i + 1).last() == args[i as int]);
            i = i + 1;
        }
        assert(args.take(i as int) =~= args);
        res
    }
}

/// Two lists of lines one after the other.
pub proof fn lemma_unlines_append(a: Seq<Seq<char>>, b: Seq<Seq<char>>)
    ensures
        unlines(a + b) == unlines(a) + unlines(b),
    decreases b.len(),
{
    if b.len() == 0 {
        assert(a + b =~= a);
    } else {
        assert((a + b).drop_last() =~= a + b.drop_last());
        lemma_unlines_append(a, b.drop_last());
        assert(unlines(a + b) =~= unlines(a) + unlines(b));
    }
}

/// One line more.
proof fn lemma_unlines_push(lines: Seq<Seq<char>>, line: Seq<char>)
    ensures
        unlines(lines.push(line)) == unlines(lines) + line + "\n"@,
        unlines(lines + seq![line]) == unlines(lines) + line + "\n"@,
{
    assert(lines.push(line).drop_last() =~= lines);
    assert(lines + seq![line] =~= lines.push(line));
}

impl DataclassInit {
    /// A constructor without arguments and body that is not indented yet.
    pub fn new() -> (res: Self)
        ensures
            res@ == (InitModel { indent: 0, args: seq![], body: seq![] }),
    {
        let res = DataclassInit { indent: 0, args: InitArgs::new(), body: Vec::new() };
        assert(res@.body =~= seq![]);
        res
    }

    /// Adds a line to the end of the body.
    pub fn add_line(&mut self, line: String)
        ensures
            final(self)@ == (InitModel { body: old(self)@.body.push(line@), ..old(self)@ }),
    {
        self.body.push(line);
        assert(self@.body =~= old(self)@.body.push(line@));
    }

    /// Replaces the arguments.
    pub fn set_args(&mut self, args: InitArgs)
        ensures
            final(self)@ == (InitModel { args: args@, ..old(self)@ }),
    {
        self.args = args;
    }

    /// Indents the constructor by `indent` and returns its indentation before.
    pub fn set_indent(&mut self, indent: usize) -> (res: usize)
        ensures
            final(self)@ == old(self)@.with_indent(indent as nat),
            res == old(self)@.indent,
    {
        let before = self.indent;
        self.indent = indent;
        before
    }

    /// Writes the constructor.
    pub fn render(&self) -> (res: String)
        ensures
            res@ == unlines(self@.lines()),
    {
        let indent = indentation(self.indent);
        let ghost lines = self@.lines();
        let mut res = indentation(self.indent);
        res.append("def __init__(self");
        res.append(self.args.render().as_str());
        res.append("):");
        res.append("\n");
        let mut i: usize = 0;
        proof {
            lemma_unlines_push(seq![], self@.signature());
            assert(lines.take(1) =~= seq![] + seq![self@.signature()]);
            assert(unlines(seq![]) =~= Seq::<char>::empty());
            assert(res@ =~= unlines(lines.take(1)));
        }
        while i < self.body.len()
            invariant
                i <= self.body@.len(),
                indent@ == text::spaces(self@.indent),
                lines == self@.lines(),
                self@.body == text::views(self.body@),
                res@ == unlines(lines.take(i + 1)),
            decreases self.body@.len() - i,
        {
            res.append(indent.as_str());
            res.append("    ");
            res.append(self.body[i].as_str());
            res.append("\n");
            proof {
                let line = self@.body_line(i as int);
                assert(lines[i + 1] == line);
                lemma_unlines_push(lines.take(i + 1), line);
                assert(lines.take(i + 2) =~= lines.take(i + 1).push(line));
                assert(res@ =~= unlines(lines.take(i + 2)));
            }
            i = i + 1;
        }
        assert(lines.take(i + 1) =~= lines);
        res
    }
}

impl Dataclass {
    /// An empty class that is not indented.
    pub fn new(name: String) -> (res: Self)
        ensures
            res@ == empty_class(name@),
    {
        let res = Dataclass {
            indent: 0,
            name,
            inclasses: Vec::new(),
            items: Vec::new(),
            init: None,
        };
        assert(res@.inclasses =~= seq![]);
        assert(res@.items =~= seq![]);
        res
    }

    /// Adds a class inside this one, behind those that are there.
    pub fn add_inclass(&mut self, inclass: Dataclass)
        requires
            inclass@.fits(old(self)@.indent + 4),
        ensures
            final(self)@ == old(self)@.with_inclass(inclass@),
    {
        let mut inclass = inclass;
        inclass.set_indent(self.indent + 4);
        self.inclasses.push(inclass);
        assert(self@.inclasses =~= old(self)@.inclasses.push(inclass@));
    }

    /// Adds a field behind those that are there.
    pub fn add_item(&mut self, item: DataclassItem)
        requires
            old(self)@.indent + 4 <= usize::MAX,
        ensures
            final(self)@ == old(self)@.with_item(item@),
    {
        let mut item = item;
        item.set_indent(self.indent + 4);
        self.items.push(item);
        assert(self@.items =~= old(self)@.items.push(item@));
    }

    /// Replaces the constructor.
    pub fn set_init(&mut self, init: Option<DataclassInit>)
        requires
            init is Some ==> old(self)@.indent + 4 <= usize::MAX,
        ensures
            final(self)@ == old(self)@.with_init(init_view(init)),
    {
        match init {
            Some(mut init) => {
                init.set_indent(self.indent + 4);
                self.init = Some(init);
            },
            None => {
                self.init = None;
            },
        }
    }

    /// Indents the class by `indent`, and everything in it accordingly, and returns its indentation
    /// before.
    pub fn set_indent(&mut self, indent: usize) -> (res: usize)
        requires
            old(self)@.fits(indent as nat),
        ensures
            final(self)@ == old(self)@.with_indent(indent as nat),
            res == old(self)@.indent,
        decreases *old(self),
    {
        let ghost before = *self;
        let mut i: usize = 0;
        while i < self.inclasses.len()
            invariant
                i <= self.inclasses@.len(),
                before == *old(self),
                before@.fits(indent as nat),
                self.inclasses@.len() == before.inclasses@.len(),
                self.indent == before.indent,
                self.name == before.name,
                self.items == before.items,
                self.init == before.init,
                forall|j: int|
                    0 <= j < i ==> (#[trigger] self.inclasses@[j])@
                        == before.inclasses@[j]@.with_indent((indent + 4) as nat),
                forall|j: int|
                    i <= j < self.inclasses@.len() ==> #[trigger] self.inclasses@[j]
                        == before.inclasses@[j],
            decreases self.inclasses@.len() - i,
        {
            assert(before@.inclasses[i as int] == before.inclasses@[i as int]@);
            self.inclasses[i].set_indent(indent + 4);
            i = i + 1;
        }
        let mut k: usize = 0;
        while k < self.items.len()
            invariant
                k <= self.items@.len(),
                before == *old(self),
                before@.fits(indent as nat),
                self.indent == before.indent,
                self.name == before.name,
                self.init == before.init,
                self.inclasses@.len() == before.inclasses@.len(),
                forall|j: int|
                    0 <= j < self.inclasses@.len() ==> (#[trigger] self.inclasses@[j])@
                        == before.inclasses@[j]@.with_indent((indent + 4) as nat),
                self.items@.len() == before.items@.len(),
                forall|j: int|
                    0 <= j < k ==> (#[trigger] self.items@[j])@ == before.items@[j]@.with_indent(
                        (indent + 4) as nat,
                    ),
                forall|j: int|
                    k <= j < self.items@.len() ==> #[trigger] self.items@[j] == before.items@[j],
            decreases self.items@.len() - k,
        {
            self.items[k].set_indent(indent + 4);
            k = k + 1;
        }
        match &mut self.init {
            Some(init) => {
                init.set_indent(indent + 4);
            },
            None => {},
        }
        let res = self.indent;
        self.indent = indent;
        proof {
            let model = before@.with_indent(indent as nat);
            assert(self@.inclasses =~= model.inclasses);
            assert(self@.items =~= model.items);
        }
        res
    }

    /// Writes the source text of the class.
    pub fn render(&self) -> (res: String)
        ensures
            res@ == self@.text(),
        decreases self,
    {
        let indent = indentation(self.indent);
        let gen_init = match self.init {
            Some(_) => "False",
            None => "True",
        };
        let ghost model = self@;
        let ghost head = model.head();

        // the class signature
        let mut res = indentation(self.indent);
        res.append("@dataclass(init=");
        res.append(gen_init);
        res.append(")");
        res.append("\n");
        res.append(indent.as_str());
        res.append("class ");
        res.append(self.name.as_str());
        res.append(":");
        res.append("\n");
        proof {
            lemma_unlines_push(seq![], head[0]);
            lemma_unlines_push(seq![head[0]], head[1]);
            assert(seq![] + seq![head[0]] =~= seq![head[0]]);
            assert(seq![head[0]] + seq![head[1]] =~= head);
            assert(unlines(seq![]) =~= Seq::<char>::empty());
            assert(res@ =~= unlines(head));
            assert(head + inner_lines(model.inclasses.take(0)) =~= head);
        }

        // the classes defined in it
        let mut i: usize = 0;
        while i < self.inclasses.len()
            invariant
                i <= self.inclasses@.len(),
                model == self@,
                head == model.head(),
                res@ == unlines(head + inner_lines(model.inclasses.take(i as int))),
            decreases self.inclasses@.len() - i,
        {
            res.append(self.inclasses[i].render().as_str());
            res.append("\n");
            proof {
                let done = head + inner_lines(model.inclasses.take(i as int));
                let inclass = model.inclasses[i as int];
                assert(inclass == self.inclasses@[i as int]@);
                assert(model.inclasses.take(i + 1).drop_last() =~= model.inclasses.take(i as int));
                lemma_unlines_append(done, inclass.lines());
                lemma_unlines_push(done + inclass.lines(), seq![]);
                assert(head + inner_lines(model.inclasses.take(i + 1)) =~= done + inclass.lines()
                    + seq![seq![]]);
                assert(res@ =~= unlines(done + inclass.lines() + seq![seq![]]));
            }
            i = i + 1;
        }

        // its fields
        let ghost behind = head + inner_lines(model.inclasses);
        assert(model.inclasses.take(i as int) =~= model.inclasses);
        assert(behind + model.item_lines().take(0) =~= behind);
        let mut k: usize = 0;
        while k < self.items.len()
            invariant
                k <= self.items@.len(),
                model == self@,
                res@ == unlines(behind + model.item_lines().take(k as int)),
            decreases self.items@.len() - k,
        {
            res.append(self.items[k].render().as_str());
            res.append("\n");
            proof {
                let done = behind + model.item_lines().take(k as int);
                let line = model.item_lines()[k as int];
                assert(line == self.items@[k as int]@.line());
                lemma_unlines_push(done, line);
                assert(behind + model.item_lines().take(k + 1) =~= done + seq![line]);
            }
            k = k + 1;
        }
        assert(model.item_lines().take(k as int) =~= model.item_lines());

        // and its constructor
        match &self.init {
            Some(init) => {
                res.append(init.render().as_str());
            },
            None => {},
        }
        proof {
            lemma_unlines_append(behind + model.item_lines(), model.init_lines());
            assert(model.lines() =~= behind + model.item_lines() + model.init_lines());
            if model.init is None {
                assert(unlines(model.init_lines()) =~= Seq::<char>::empty());
            }
            assert(res@ =~= model.text());
        }
        res
    }
}

/// Whatever is indented is aligned afterwards, at the indentation asked for.
pub proof fn law_indent_aligns(class: ClassModel, indent: nat)
    ensures
        class.with_indent(indent).aligned(),
        class.with_indent(indent).indent == indent,
    decreases class,
{
    let res = class.with_indent(indent);
    assert forall|i: int| 0 <= i < res.inclasses.len() implies (
    #[trigger] res.inclasses[i]).indent == res.indent + 4 && res.inclasses[i].aligned() by {
        law_indent_aligns(class.inclasses[i], indent + 4);
    }
}

/// A new class is aligned, and an aligned class stays aligned whatever is added to it.
pub proof fn law_edits_keep_alignment(
    class: ClassModel,
    name: Seq<char>,
    inclass: ClassModel,
    item: ItemModel,
    init: Option<InitModel>,
)
    requires
        class.aligned(),
    ensures
        empty_class(name).aligned(),
        class.with_inclass(inclass).aligned(),
        class.with_item(item).aligned(),
        class.with_init(init).aligned(),
{
    law_indent_aligns(inclass, class.indent + 4);
    let grown = class.with_inclass(inclass);
    assert forall|i: int| 0 <= i < grown.inclasses.len() implies (
    #[trigger] grown.inclasses[i]).indent == grown.indent + 4 && grown.inclasses[i].aligned() by {
        if i < class.inclasses.len() {
            assert(grown.inclasses[i] == class.inclasses[i]);
        }
    }
}

/// Of two indentations in a row only the second counts.
pub proof fn law_last_indent_counts(class: ClassModel, first: nat, second: nat)
    ensures
        class.with_indent(first).with_indent(second) == class.with_indent(second),
    decreases class,
{
    let twice = class.with_indent(first).with_indent(second);
    let once = class.with_indent(second);
    assert forall|i: int| 0 <= i < class.inclasses.len() implies twice.inclasses[i]
        == once.inclasses[i] by {
        law_last_indent_counts(class.inclasses[i], first + 4, second + 4);
    }
    assert(twice.inclasses =~= once.inclasses);
    assert(twice.items =~= once.items);
}

/// Indenting an aligned class where it is changes nothing, so going back to the indentation that
/// `set_indent` returned undoes it.
pub proof fn law_indent_undone(class: ClassModel, indent: nat)
    requires
        class.aligned(),
    ensures
        class.with_indent(class.indent) == class,
        class.with_indent(indent).with_indent(class.indent) == class,
    decreases class,
{
    law_last_indent_counts(class, indent, class.indent);
    let same = class.with_indent(class.indent);
    assert forall|i: int| 0 <= i < class.inclasses.len() implies same.inclasses[i]
        == class.inclasses[i] by {
        law_indent_undone(class.inclasses[i], indent);
    }
    assert(same.inclasses =~= class.inclasses);
    assert(same.items =~= class.items);
}

/// A line moved `by` columns to the right; an empty line stays empty.
pub open spec fn shifted(line: Seq<char>, by: nat) -> Seq<char> {
    if line.len() == 0 {
        line
    } else {
        text::spaces(by) + line
    }
}

/// Lines moved `by` columns to the right.
pub open spec fn all_shifted(lines: Seq<Seq<char>>, by: nat) -> Seq<Seq<char>> {
    lines.map_values(|line: Seq<char>| shifted(line, by))
}

proof fn lemma_shift_append(a: Seq<Seq<char>>, b: Seq<Seq<char>>, by: nat)
    ensures
        all_shifted(a + b, by) == all_shifted(a, by) + all_shifted(b, by),
{
    assert(all_shifted(a + b, by) =~= all_shifted(a, by) + all_shifted(b, by));
}

proof fn lemma_spaces_sum(a: nat, b: nat)
    ensures
        text::spaces(b + a) == text::spaces(b) + text::spaces(a),
{
    assert(text::spaces(b + a) =~= text::spaces(b) + text::spaces(a));
}

proof fn lemma_item_shift(item: ItemModel, indent: nat, by: nat)
    ensures
        item.with_indent(indent + by).line() == shifted(item.with_indent(indent).line(), by),
{
    lemma_spaces_sum(indent, by);
    reveal_strlit(": ");
    assert(item.with_indent(indent + by).line() =~= text::spaces(by) + item.with_indent(
        indent,
    ).line());
}

proof fn lemma_init_shift(init: InitModel, indent: nat, by: nat)
    ensures
        init.with_indent(indent + by).lines() == all_shifted(
            init.with_indent(indent).lines(),
            by,
        ),
{
    lemma_spaces_sum(indent, by);
    reveal_strlit("def __init__(self");
    reveal_strlit("    ");
    let far = init.with_indent(indent + by);
    let near = init.with_indent(indent);
    assert(far.signature() =~= text::spaces(by) + near.signature());
    assert forall|i: int| 0 <= i < init.body.len() implies #[trigger] far.body_line(i)
        == shifted(near.body_line(i), by) by {
        assert(far.body_line(i) =~= text::spaces(by) + near.body_line(i));
    }
    assert(far.lines() =~= all_shifted(near.lines(), by));
}

/// Moving inner classes moves their lines.
proof fn lemma_inner_shift(
    classes: Seq<ClassModel>,
    near: Seq<ClassModel>,
    far: Seq<ClassModel>,
    indent: nat,
    by: nat,
)
    requires
        near.len() == classes.len() == far.len(),
        forall|i: int|
            0 <= i < classes.len() ==> #[trigger] near[i] == classes[i].with_indent(indent),
        forall|i: int|
            0 <= i < classes.len() ==> #[trigger] far[i] == classes[i].with_indent(indent + by),
    ensures
        inner_lines(far) == all_shifted(inner_lines(near), by),
    decreases classes, 0int,
{
    if classes.len() == 0 {
        assert(inner_lines(far) =~= all_shifted(inner_lines(near), by));
    } else {
        let last = classes.len() - 1;
        lemma_inner_shift(classes.drop_last(), near.drop_last(), far.drop_last(), indent, by);
        law_indent_shifts_lines(classes[last], indent, by);
        let front = inner_lines(near.drop_last());
        lemma_shift_append(front, near[last].lines(), by);
        lemma_shift_append(front + near[last].lines(), seq![seq![]], by);
        assert(all_shifted(seq![seq![]], by) =~= seq![seq![]]);
    }
}

/// Indenting a class further moves every line of its text, and nothing else, to the right.
pub proof fn law_indent_shifts_lines(class: ClassModel, indent: nat, by: nat)
    ensures
        class.with_indent(indent + by).lines() == all_shifted(
            class.with_indent(indent).lines(),
            by,
        ),
    decreases class, 1int,
{
    let near = class.with_indent(indent);
    let far = class.with_indent(indent + by);
    lemma_inner_shift(class.inclasses, near.inclasses, far.inclasses, indent + 4, by);
    lemma_spaces_sum(indent, by);
    reveal_strlit("@dataclass(init=");
    reveal_strlit("class ");
    assert(far.head()[0] =~= text::spaces(by) + near.head()[0]);
    assert(far.head()[1] =~= text::spaces(by) + near.head()[1]);
    assert(far.head() =~= all_shifted(near.head(), by));
    assert forall|i: int| 0 <= i < class.items.len() implies #[trigger] far.item_lines()[i]
        == shifted(near.item_lines()[i], by) by {
        lemma_item_shift(class.items[i], indent + 4, by);
    }
    assert(far.item_lines() =~= all_shifted(near.item_lines(), by));
    if let Some(init) = class.init {
        lemma_init_shift(init, indent + 4, by);
    }
    assert(far.init_lines() =~= all_shifted(near.init_lines(), by));
    lemma_shift_append(near.head(), inner_lines(near.inclasses), by);
    lemma_shift_append(near.head() + inner_lines(near.inclasses), near.item_lines(), by);
    lemma_shift_append(
        near.head() + inner_lines(near.inclasses) + near.item_lines(),
        near.init_lines(),
        by,
    );
}

/// The number of lines in front of the `k`-th of a row of inner classes: those of the classes in
/// front of it, with an empty line behind each.
pub open spec fn inner_offset(classes: Seq<ClassModel>, k: int) -> int
    decreases k,
{
    if k <= 0 {
        0
    } else {
        inner_offset(classes, k - 1) + classes[k - 1].lines().len() + 1
    }
}

/// Places of inner classes do not overlap.
proof fn lemma_inner_offset_grows(classes: Seq<ClassModel>, k: int, n: int)
    requires
        0 <= k < n <= classes.len(),
    ensures
        0 <= inner_offset(classes, k),
        inner_offset(classes, k) + classes[k].lines().len() + 1 <= inner_offset(classes, n),
    decreases n,
{
    lemma_inner_offset_nonnegative(classes, k);
    if k < n - 1 {
        lemma_inner_offset_grows(classes, k, n - 1);
    }
}

proof fn lemma_inner_offset_nonnegative(classes: Seq<ClassModel>, k: int)
    ensures
        0 <= inner_offset(classes, k),
    decreases k,
{
    if k > 0 {
        lemma_inner_offset_nonnegative(classes, k - 1);
    }
}

/// Blocks of lines one behind the other, with an empty line behind each.
spec fn stacked(blocks: Seq<Seq<Seq<char>>>) -> Seq<Seq<char>>
    decreases blocks.len(),
{
    if blocks.len() == 0 {
        seq![]
    } else {
        stacked(blocks.drop_last()) + blocks.last() + seq![seq![]]
    }
}

/// The place of the `k`-th block.
spec fn block_offset(blocks: Seq<Seq<Seq<char>>>, k: int) -> int
    decreases k,
{
    if k <= 0 {
        0
    } else {
        block_offset(blocks, k - 1) + blocks[k - 1].len() + 1
    }
}

proof fn lemma_block_offset_front(blocks: Seq<Seq<Seq<char>>>, k: int)
    requires
        0 <= k < blocks.len(),
    ensures
        0 <= block_offset(blocks, k),
        block_offset(blocks.drop_last(), k) == block_offset(blocks, k),
    decreases k,
{
    if k > 0 {
        lemma_block_offset_front(blocks, k - 1);
        assert(blocks.drop_last()[k - 1] == blocks[k - 1]);
    }
}

proof fn lemma_stacked_len(blocks: Seq<Seq<Seq<char>>>)
    ensures
        stacked(blocks).len() == block_offset(blocks, blocks.len() as int),
    decreases blocks.len(),
{
    if blocks.len() > 0 {
        lemma_stacked_len(blocks.drop_last());
        lemma_block_offset_front(blocks, blocks.len() - 1);
    }
}

/// Where a block stands.
#[verifier::spinoff_prover]
proof fn lemma_stacked_block(blocks: Seq<Seq<Seq<char>>>, k: int)
    requires
        0 <= k < blocks.len(),
    ensures
        ({
            let start = block_offset(blocks, k);
            let end = start + blocks[k].len();
            &&& 0 <= start
            &&& end < stacked(blocks).len()
            &&& stacked(blocks).subrange(start, end) == blocks[k]
            &&& stacked(blocks)[end] == Seq::<char>::empty()
        }),
    decreases blocks.len(),
{
    let front = blocks.drop_last();
    let before = stacked(front);
    let all = stacked(blocks);
    let start = block_offset(blocks, k);
    let end = start + blocks[k].len();
    lemma_block_offset_front(blocks, k);
    lemma_stacked_len(front);
    if k < blocks.len() - 1 {
        assert(front[k] == blocks[k]);
        lemma_stacked_block(front, k);
        assert(all.subrange(start, end) =~= before.subrange(start, end));
        assert(all[end] == before[end]);
    } else {
        assert(all.subrange(start, end) =~= blocks[k]);
    }
}

/// The lines of inner classes are stacked blocks.
#[verifier::spinoff_prover]
proof fn lemma_inner_stacked(classes: Seq<ClassModel>, blocks: Seq<Seq<Seq<char>>>)
    requires
        blocks.len() == classes.len(),
        forall|i: int| 0 <= i < classes.len() ==> #[trigger] blocks[i] == classes[i].lines(),
    ensures
        inner_lines(classes) == stacked(blocks),
    decreases classes.len(),
{
    if classes.len() > 0 {
        lemma_inner_stacked(classes.drop_last(), blocks.drop_last());
        assert(blocks[blocks.len() - 1] == classes[classes.len() - 1].lines());
    }
}

proof fn lemma_offsets_agree(classes: Seq<ClassModel>, blocks: Seq<Seq<Seq<char>>>, k: int)
    requires
        blocks.len() == classes.len(),
        forall|i: int| 0 <= i < classes.len() ==> #[trigger] blocks[i] == classes[i].lines(),
        0 <= k <= classes.len(),
    ensures
        inner_offset(classes, k) == block_offset(blocks, k),
    decreases k,
{
    if k > 0 {
        lemma_offsets_agree(classes, blocks, k - 1);
        assert(blocks[k - 1] == classes[k - 1].lines());
    }
}

/// The lines of all inner classes.
proof fn lemma_inner_len(classes: Seq<ClassModel>)
    ensures
        inner_lines(classes).len() == inner_offset(classes, classes.len() as int),
{
    let blocks = classes.map_values(|class: ClassModel| class.lines());
    lemma_inner_stacked(classes, blocks);
    lemma_offsets_agree(classes, blocks, classes.len() as int);
    lemma_stacked_len(blocks);
}

/// Where the lines of an inner class stand.
#[verifier::spinoff_prover]
proof fn lemma_inner_layout(classes: Seq<ClassModel>, k: int)
    requires
        0 <= k < classes.len(),
    ensures
        ({
            let start = inner_offset(classes, k);
            let end = start + classes[k].lines().len();
            &&& 0 <= start
            &&& end < inner_lines(classes).len()
            &&& inner_lines(classes).subrange(start, end) == classes[k].lines()
            &&& inner_lines(classes)[end] == Seq::<char>::empty()
        }),
{
    let blocks = classes.map_values(|class: ClassModel| class.lines());
    lemma_inner_stacked(classes, blocks);
    lemma_offsets_agree(classes, blocks, k);
    lemma_stacked_block(blocks, k);
    assert(blocks[k] == classes[k].lines());
}

/// The text of a class holds all of it and nothing else, in order: the decorator and the line that
/// opens the class, every inner class with an empty line behind it, a line for every field, and the
/// constructor, if there is one. The generated constructor is asked for if there is none.
#[verifier::spinoff_prover]
#[verifier::rlimit(30)]
pub proof fn law_class_layout(class: ClassModel)
    ensures
        ({
            let lines = class.lines();
            let indent = text::spaces(class.indent);
            let fields = 2 + inner_offset(class.inclasses, class.inclasses.len() as int);
            let init = fields + class.items.len();
            &&& lines.len() == init + (match class.init {
                Some(init) => 1 + init.body.len() as int,
                None => 0,
            })
            &&& class.init is Some ==> lines[0] == indent + "@dataclass(init="@ + "False"@ + ")"@
            &&& class.init is None ==> lines[0] == indent + "@dataclass(init="@ + "True"@ + ")"@
            &&& lines[1] == indent + "class "@ + class.name + ":"@
            &&& forall|k: int|
                #![trigger class.inclasses[k]]
                0 <= k < class.inclasses.len() ==> {
                    let start = 2 + inner_offset(class.inclasses, k);
                    let end = start + class.inclasses[k].lines().len();
                    &&& 2 <= start
                    &&& end < fields
                    &&& lines.subrange(start, end) == class.inclasses[k].lines()
                    &&& lines[end] == Seq::<char>::empty()
                }
            &&& forall|i: int|
                #![trigger class.items[i]]
                0 <= i < class.items.len() ==> lines[fields + i] == text::spaces(
                    class.items[i].indent,
                ) + class.items[i].name + ": "@ + class.items[i].ty
            &&& class.init matches Some(model) ==> {
                &&& lines[init] == text::spaces(model.indent) + "def __init__(self"@ + args_text(
                    model.args,
                ) + "):"@
                &&& forall|j: int|
                    #![trigger model.body[j]]
                    0 <= j < model.body.len() ==> lines[init + 1 + j] == text::spaces(model.indent)
                        + "    "@ + model.body[j]
            }
        }),
{
    let lines = class.lines();
    let inner = inner_lines(class.inclasses);
    let fields = 2 + inner.len() as int;
    lemma_inner_len(class.inclasses);
    assert(lines.len() == 2 + inner.len() + class.items.len() + class.init_lines().len());
    assert(lines[0] == class.head()[0]);
    assert(lines[1] == class.head()[1]);
    assert forall|k: int|
        #![trigger class.inclasses[k]]
        0 <= k < class.inclasses.len() implies {
        let start = 2 + inner_offset(class.inclasses, k);
        let end = start + class.inclasses[k].lines().len();
        &&& 2 <= start
        &&& end < fields
        &&& lines.subrange(start, end) == class.inclasses[k].lines()
        &&& lines[end] == Seq::<char>::empty()
    } by {
        let start = inner_offset(class.inclasses, k);
        let end = start + class.inclasses[k].lines().len();
        lemma_inner_layout(class.inclasses, k);
        assert(lines.subrange(2 + start, 2 + end) =~= inner.subrange(start, end));
        assert(lines[2 + end] == inner[end]);
    }
    assert forall|i: int|
        #![trigger class.items[i]]
        0 <= i < class.items.len() implies lines[fields + i] == text::spaces(class.items[i].indent)
        + class.items[i].name + ": "@ + class.items[i].ty by {
        assert(lines[fields + i] == class.item_lines()[i]);
    }
    if let Some(model) = class.init {
        let start = fields + class.items.len();
        assert(lines[start] == class.init_lines()[0]);
        assert forall|j: int|
            #![trigger model.body[j]]
            0 <= j < model.body.len() implies lines[start + 1 + j] == text::spaces(model.indent)
            + "    "@ + model.body[j] by {
            assert(lines[start + 1 + j] == class.init_lines()[1 + j]);
        }
    }
}

/// The inner classes of a class stand in its text one behind the other, none in the place of
/// another.
pub proof fn law_inner_classes_apart(class: ClassModel, j: int, k: int)
    requires
        0 <= j < k < class.inclasses.len(),
    ensures
        inner_offset(class.inclasses, j) + class.inclasses[j].lines().len() < inner_offset(
            class.inclasses,
            k,
        ),
{
    lemma_inner_offset_grows(class.inclasses, j, k);
}

/// The text of a class, or of a constructor, is its lines with a newline behind each.
pub proof fn law_text_of_lines(
    a: Seq<Seq<char>>,
    b: Seq<Seq<char>>,
    line: Seq<char>,
    class: ClassModel,
)
    ensures
        unlines(seq![]) == Seq::<char>::empty(),
        unlines(seq![line]) == line + seq!['\n'],
        unlines(a + b) == unlines(a) + unlines(b),
        class.text() == unlines(class.lines()),
{
    lemma_unlines_append(a, b);
    lemma_unlines_push(seq![], line);
    reveal_strlit("\n");
    assert(seq![] + seq![line] =~= seq![line]);
    assert("\n"@ =~= seq!['\n']);
    assert(unlines(seq![line]) =~= line + seq!['\n']);
}

/// Every argument of a constructor is written with its type, behind a comma, in order.
pub proof fn law_args_in_order(args: Seq<NameAndType>, name: Seq<char>, ty: Seq<char>)
    ensures
        args_text(seq![]) == Seq::<char>::empty(),
        args_text(args.push((name, ty))) == args_text(args) + ", "@ + name + ": "@ + ty,
{
    assert(args.push((name, ty)).drop_last() =~= args);
}

/// The lines of a field and of a constructor.
pub proof fn law_part_lines(item: ItemModel, init: InitModel)
    ensures
        item.line() == text::spaces(item.indent) + item.name + ": "@ + item.ty,
        init.lines().len() == 1 + init.body.len(),
        init.lines()[0] == text::spaces(init.indent) + "def __init__(self"@ + args_text(init.args)
            + "):"@,
        forall|j: int|
            #![trigger init.body[j]]
            0 <= j < init.body.len() ==> init.lines()[1 + j] == text::spaces(init.indent) + "    "@
                + init.body[j],
{
}

/// Indenting changes indentations alone: of a field, of a constructor, and of a class and all that
/// is in it, which is four columns further in. Nothing is lost, renamed or moved.
pub proof fn law_indent_keeps_contents(
    class: ClassModel,
    item: ItemModel,
    init: InitModel,
    indent: nat,
)
    ensures
        item.with_indent(indent) == (ItemModel { indent, name: item.name, ty: item.ty }),
        init.with_indent(indent) == (InitModel { indent, args: init.args, body: init.body }),
        ({
            let res = class.with_indent(indent);
            &&& res.indent == indent
            &&& res.name == class.name
            &&& res.inclasses.len() == class.inclasses.len()
            &&& forall|i: int|
                #![trigger res.inclasses[i]]
                0 <= i < class.inclasses.len() ==> res.inclasses[i]
                    == class.inclasses[i].with_indent(indent + 4)
            &&& res.items.len() == class.items.len()
            &&& forall|i: int|
                #![trigger res.items[i]]
                0 <= i < class.items.len() ==> res.items[i].indent == indent + 4
                    && res.items[i].name == class.items[i].name && res.items[i].ty
                    == class.items[i].ty
            &&& res.init is Some <==> class.init is Some
            &&& class.init matches Some(init) ==> {
                &&& res.init->0.indent == indent + 4
                &&& res.init->0.args == init.args
                &&& res.init->0.body == init.body
            }
        }),
{
}

/// What is added to a class comes behind what is there, four columns further in than the class, and
/// changes nothing else; a constructor takes the place of the one before.
#[verifier::spinoff_prover]
#[verifier::rlimit(30)]
pub proof fn law_edits_add(
    class: ClassModel,
    inclass: ClassModel,
    item: ItemModel,
    init: InitModel,
    name: Seq<char>,
)
    ensures
        empty_class(name).indent == 0,
        empty_class(name).name == name,
        !empty_class(name).has_parts(),
        class.has_parts() <==> !(class.inclasses.len() == 0 && class.items.len() == 0
            && class.init is None),
        ({
            let res = class.with_inclass(inclass);
            &&& res.inclasses == class.inclasses + seq![inclass.with_indent(class.indent + 4)]
            &&& res.items == class.items && res.init == class.init
            &&& res.name == class.name && res.indent == class.indent
        }),
        ({
            let res = class.with_item(item);
            let added = ItemModel { indent: class.indent + 4, name: item.name, ty: item.ty };
            &&& res.items == class.items + seq![added]
            &&& res.inclasses == class.inclasses && res.init == class.init
            &&& res.name == class.name && res.indent == class.indent
        }),
        ({
            let res = class.with_init(Some(init));
            &&& res.init == Some(
                InitModel { indent: class.indent + 4, args: init.args, body: init.body },
            )
            &&& res.inclasses == class.inclasses && res.items == class.items
            &&& res.name == class.name && res.indent == class.indent
        }),
        class.with_init(None).init is None,
        class.with_init(None).with_init(Some(init)) == class.with_init(Some(init)),
        class.with_init(None).with_init(class.init).items == class.items,
        class.with_init(None).inclasses == class.inclasses,
        class.with_init(None).name == class.name,
        class.with_init(None).indent == class.indent,
{
    let part = inclass.with_indent(class.indent + 4);
    assert(class.inclasses.push(part) =~= class.inclasses + seq![part]);
    let added = ItemModel { indent: class.indent + 4, name: item.name, ty: item.ty };
    assert(class.items.push(added) =~= class.items + seq![added]);
}

impl ClassModel {
    /// How many levels of things in things there are in the class.
    pub open spec fn nesting(self) -> nat
        decreases self,
    {
        if self.inclasses.len() == 0 && self.items.len() == 0 && self.init is None {
            0
        } else {
            1 + deepest(self.inclasses)
        }
    }
}

/// The largest nesting of some classes.
pub open spec fn deepest(classes: Seq<ClassModel>) -> nat
    decreases classes,
{
    if classes.len() == 0 {
        0
    } else {
        let front = deepest(classes.drop_last());
        let last = classes[classes.len() - 1].nesting();
        if front < last {
            last
        } else {
            front
        }
    }
}

#[verifier::spinoff_prover]
#[verifier::rlimit(30)]
proof fn lemma_deepest(classes: Seq<ClassModel>, indent: nat)
    requires
        indent <= usize::MAX,
    ensures
        (forall|i: int| 0 <= i < classes.len() ==> (#[trigger] classes[i]).fits(indent)) <==> indent
            + 4 * deepest(classes) <= usize::MAX,
    decreases classes, 0int,
{
    if classes.len() > 0 {
        let front = classes.drop_last();
        let last = classes.len() - 1;
        lemma_deepest(front, indent);
        law_room_needed(classes[last], indent);
        assert forall|i: int| 0 <= i < front.len() implies #[trigger] front[i] == classes[i] by {}
        if indent + 4 * deepest(classes) <= usize::MAX {
            assert forall|i: int| 0 <= i < classes.len() implies (#[trigger] classes[i]).fits(
                indent,
            ) by {
                if i < last {
                    assert(front[i].fits(indent));
                }
            }
        }
        if forall|i: int| 0 <= i < classes.len() ==> (#[trigger] classes[i]).fits(indent) {
            assert forall|i: int| 0 <= i < front.len() implies (#[trigger] front[i]).fits(
                indent,
            ) by {
                assert(classes[i].fits(indent));
            }
            assert(classes[last].fits(indent));
        }
    }
}

/// A class can be indented exactly as far as there are columns for all that is in it, at every
/// depth.
#[verifier::spinoff_prover]
#[verifier::rlimit(30)]
pub proof fn law_room_needed(class: ClassModel, indent: nat)
    ensures
        class.fits(indent) <==> indent + 4 * class.nesting() <= usize::MAX,
    decreases class, 1int,
{
    if class.has_parts() && indent + 4 <= usize::MAX {
        lemma_deepest(class.inclasses, indent + 4);
    }
}

} // verus!
