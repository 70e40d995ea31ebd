//! Resolution of the enumeration-wide configuration and of each command.
use vstd::prelude::*;

use crate::attr::{first_unknown, last_of, opt_view, parse_attrs, Attr, AttrKind};
use crate::doc::{doc_text, process_doc_comment};
use crate::parts::{camel_case, pascal_case, screaming, tokenize, Parts};
use crate::text::{join, lower_of, lowercase, str_eq, upper_of, uppercase, views};

verus! {

/// The naming conventions that a command token can be derived by.
#[derive(Clone, Copy, Debug, PartialEq, Eq, Structural)]
pub enum RenameRule {
    Lowercase,
    Uppercase,
    PascalCase,
    CamelCase,
    SnakeCase,
    KebabCase,
    ScreamingSnakeCase,
    ScreamingKebabCase,
}

/// The rule that a `rename` value names, if any.
pub open spec fn rule_of(name: Seq<char>) -> Option<RenameRule> {
    if name == "lowercase"@ {
        Some(RenameRule::Lowercase)
    } else if name == "UPPERCASE"@ {
        Some(RenameRule::Uppercase)
    } else if name == "PascalCase"@ {
        Some(RenameRule::PascalCase)
    } else if name == "camelCase"@ {
        Some(RenameRule::CamelCase)
    } else if name == "snake_case"@ {
        Some(RenameRule::SnakeCase)
    } else if name == "kebab-case"@ {
        Some(RenameRule::KebabCase)
    } else if name == "SCREAMING_SNAKE_CASE"@ {
        Some(RenameRule::ScreamingSnakeCase)
    } else if name == "SCREAMING-KEBAB-CASE"@ {
        Some(RenameRule::ScreamingKebabCase)
    } else {
        None
    }
}

/// An identifier renamed by a rule.
pub open spec fn apply_rule(rule: RenameRule, ident: Seq<char>) -> Seq<char> {
    match rule {
        RenameRule::Lowercase => lower_of(ident),
        RenameRule::Uppercase => upper_of(ident),
        RenameRule::PascalCase => pascal_case(tokenize(ident)),
        RenameRule::CamelCase => camel_case(tokenize(ident)),
        RenameRule::SnakeCase => join(tokenize(ident), seq!['_']),
        RenameRule::KebabCase => join(tokenize(ident), seq!['-']),
        RenameRule::ScreamingSnakeCase => screaming(tokenize(ident), seq!['_']),
        RenameRule::ScreamingKebabCase => screaming(tokenize(ident), seq!['-']),
    }
}

/// The rule that a `rename` value names, if any.
pub fn parse_rule(name: &str) -> (r: Option<RenameRule>)
    ensures
        r == rule_of(name@),
{
    if str_eq(name, "lowercase") {
        Some(RenameRule::Lowercase)
    } else if str_eq(name, "UPPERCASE") {
        Some(RenameRule::Uppercase)
    } else if str_eq(name, "PascalCase") {
        Some(RenameRule::PascalCase)
    } else if str_eq(name, "camelCase") {
        Some(RenameRule::CamelCase)
    } else if str_eq(name, "snake_case") {
        Some(RenameRule::SnakeCase)
    } else if str_eq(name, "kebab-case") {
        Some(RenameRule::KebabCase)
    } else if str_eq(name, "SCREAMING_SNAKE_CASE") {
        Some(RenameRule::ScreamingSnakeCase)
    } else if str_eq(name, "SCREAMING-KEBAB-CASE") {
        Some(RenameRule::ScreamingKebabCase)
    } else {
        None
    }
}

/// Renames an identifier by a rule.
pub fn rename_by_rule(ident: &str, rule: RenameRule) -> (r: String)
    ensures
        r@ == apply_rule(rule, ident@),
{
    match rule {
        RenameRule::Lowercase => lowercase(ident),
        RenameRule::Uppercase => uppercase(ident),
        RenameRule::PascalCase => Parts::from_ident(ident).to_pascalcase(),
        RenameRule::CamelCase => Parts::from_ident(ident).to_camelcase(),
        RenameRule::SnakeCase => Parts::from_ident(ident).to_snakecase(),
        RenameRule::KebabCase => Parts::from_ident(ident).to_kebabcase(),
        RenameRule::ScreamingSnakeCase => Parts::from_ident(ident).to_screaming_snakecase(),
        RenameRule::ScreamingKebabCase => Parts::from_ident(ident).to_screaming_kebabcase(),
    }
}

/// How argument text is turned into fields, as configured by `parser`.
#[derive(Debug)]
pub enum ParserKind {
    /// Split on the separator, one piece per field.
    Split,
    /// Hand the text to the named function.
    Custom(String),
}

impl View for ParserKind {
    /// `None` for splitting, the function's name otherwise.
    type V = Option<Seq<char>>;

    open spec fn view(&self) -> Option<Seq<char>> {
        match self {
            ParserKind::Split => None,
            ParserKind::Custom(f) => Some(f@),
        }
    }
}

/// The view of the parser that a `parser` value (if given) configures;
/// `split` and the absence of a value stand for splitting.
pub open spec fn parser_value(v: Option<Seq<char>>) -> Option<Seq<char>> {
    match v {
        None => None,
        Some(name) => if name == "split"@ {
            None
        } else {
            Some(name)
        },
    }
}

impl ParserKind {
    /// The parser that a `parser` value names.
    pub fn named(v: &str) -> (r: ParserKind)
        ensures
            r@ == parser_value(Some(v@)),
    {
        if str_eq(v, "split") {
            ParserKind::Split
        } else {
            ParserKind::Custom(v.to_owned())
        }
    }

    pub fn duplicate(&self) -> (r: ParserKind)
        ensures
            r == *self,
    {
        match self {
            ParserKind::Split => ParserKind::Split,
            ParserKind::Custom(f) => ParserKind::Custom(f.clone()),
        }
    }
}

/// A mistake in the declaration, reported at compile time.
#[derive(Debug)]
pub enum SpecError {
    /// An option name outside the recognised set.
    UnrecognizedAttribute(String),
    /// A `rename` value on the enumeration that names no rule.
    UnknownRenameRule(String),
    /// A `separator` whose value is empty.
    EmptySeparator,
    /// An enumeration without variants.
    NoVariants,
    /// Two commands that the parser would compare against the same text.
    DuplicateCommand(String),
}

/// What a [`SpecError`] says, over plain sequences.
pub enum SpecErrorView {
    UnrecognizedAttribute(Seq<char>),
    UnknownRenameRule(Seq<char>),
    EmptySeparator,
    NoVariants,
    DuplicateCommand(Seq<char>),
}

impl View for SpecError {
    type V = SpecErrorView;

    open spec fn view(&self) -> SpecErrorView {
        match self {
            SpecError::UnrecognizedAttribute(n) => SpecErrorView::UnrecognizedAttribute(n@),
            SpecError::UnknownRenameRule(n) => SpecErrorView::UnknownRenameRule(n@),
            SpecError::EmptySeparator => SpecErrorView::EmptySeparator,
            SpecError::NoVariants => SpecErrorView::NoVariants,
            SpecError::DuplicateCommand(m) => SpecErrorView::DuplicateCommand(m@),
        }
    }
}

/// The error of the enumeration-wide attributes `a`, if they have one.
pub open spec fn enum_error(a: Seq<Attr>) -> Option<SpecErrorView> {
    match first_unknown(a) {
        Some(n) => Some(SpecErrorView::UnrecognizedAttribute(n)),
        None => match last_of(a, AttrKind::Rename) {
            Some(v) if rule_of(v) is None => Some(SpecErrorView::UnknownRenameRule(v)),
            _ => if last_of(a, AttrKind::Separator) == Some(Seq::<char>::empty()) {
                Some(SpecErrorView::EmptySeparator)
            } else {
                None
            },
        },
    }
}

/// The error of the attributes `a` of one variant, if they have one.
pub open spec fn variant_error(a: Seq<Attr>) -> Option<SpecErrorView> {
    match first_unknown(a) {
        Some(n) => Some(SpecErrorView::UnrecognizedAttribute(n)),
        None => if last_of(a, AttrKind::Separator) == Some(Seq::<char>::empty()) {
            Some(SpecErrorView::EmptySeparator)
        } else {
            None
        },
    }
}

/// The prefix that the enumeration-wide attributes `a` configure.
pub open spec fn enum_prefix(a: Seq<Attr>) -> Seq<char> {
    match last_of(a, AttrKind::Prefix) {
        Some(p) => p,
        None => "/"@,
    }
}

/// The rename rule that the enumeration-wide attributes `a` configure, where
/// they name a valid one.
pub open spec fn enum_rule(a: Seq<Attr>) -> RenameRule {
    match last_of(a, AttrKind::Rename) {
        Some(v) => rule_of(v).unwrap(),
        None => RenameRule::SnakeCase,
    }
}

/// The text that variant `v` is matched against under the enumeration-wide
/// attributes `a`.
pub open spec fn matched_spec(a: Seq<Attr>, v: Variant) -> Seq<char> {
    let prefix = match last_of(v.attrs@, AttrKind::Prefix) {
        Some(p) => p,
        None => enum_prefix(a),
    };
    let token = match last_of(v.attrs@, AttrKind::Rename) {
        Some(t) => t,
        None => apply_rule(enum_rule(a), v.ident@),
    };
    prefix + token
}

/// The enumeration-wide configuration.
#[derive(Debug)]
pub struct CommandEnum {
    /// Written before every command token; `/` by default.
    pub prefix: String,
    /// Cuts argument text into fields; a single space by default.
    pub separator: String,
    /// The parser of commands that configure none of their own.
    pub parser: ParserKind,
    /// A text shown after the command descriptions.
    pub description: Option<String>,
    /// Derives command tokens from variant names; snake_case by default.
    pub rename_rule: RenameRule,
}

impl CommandEnum {
    /// `self` is what the enumeration-wide attributes `a` configure.
    pub open spec fn models(&self, a: Seq<Attr>) -> bool {
        &&& self.prefix@ == enum_prefix(a)
        &&& self.separator@ == match last_of(a, AttrKind::Separator) {
            Some(s) => s,
            None => " "@,
        }
        &&& self.parser@ == parser_value(last_of(a, AttrKind::Parser))
        &&& opt_view(self.description) == last_of(a, AttrKind::Description)
        &&& self.rename_rule == enum_rule(a)
        &&& self.wf()
    }

    /// The separator can cut text: it is not empty.
    pub open spec fn wf(&self) -> bool {
        self.separator@.len() > 0
    }

    /// Resolves the enumeration-wide attributes.
    pub fn try_from(attrs: &Vec<Attr>) -> (r: Result<CommandEnum, SpecError>)
        ensures
            r is Ok <==> enum_error(attrs@) is None,
            r matches Ok(e) ==> e.models(attrs@),
            r matches Err(e) ==> enum_error(attrs@) == Some(e@),
    {
        let set = match parse_attrs(attrs) {
            Ok(set) => set,
            Err(name) => {
                return Err(SpecError::UnrecognizedAttribute(name));
            },
        };
        let rename_rule = match &set.rename {
            Some(v) => match parse_rule(v.as_str()) {
                Some(rule) => rule,
                None => {
                    return Err(SpecError::UnknownRenameRule(v.clone()));
                },
            },
            None => RenameRule::SnakeCase,
        };
        let separator = match &set.separator {
            Some(s) => {
                if s.as_str().unicode_len() == 0 {
                    assert(s@ =~= Seq::<char>::empty());
                    return Err(SpecError::EmptySeparator);
                }
                s.clone()
            },
            None => {
                let s = " ".to_owned();
                proof {
                    reveal_strlit(" ");
                }
                s
            },
        };
        let prefix = match &set.prefix {
            Some(p) => p.clone(),
            None => "/".to_owned(),
        };
        let parser = match &set.parser {
            Some(v) => ParserKind::named(v.as_str()),
            None => ParserKind::Split,
        };
        Ok(CommandEnum { prefix, separator, parser, description: set.description, rename_rule })
    }
}

/// The fields of a variant.
#[derive(Clone, Copy, Debug, PartialEq, Eq, Structural)]
pub enum FieldShape {
    /// No fields.
    Unit,
    /// So many positional fields.
    Unnamed(usize),
    /// So many named fields, filled in declaration order.
    Named(usize),
}

pub open spec fn field_count(shape: FieldShape) -> nat {
    match shape {
        FieldShape::Unit => 0,
        FieldShape::Unnamed(n) => n as nat,
        FieldShape::Named(n) => n as nat,
    }
}

/// How the argument text of one command becomes its fields.
#[derive(Debug)]
pub enum Strategy {
    /// The command has no fields; argument text is ignored.
    NoArguments,
    /// The text is cut at each separator into exactly `arity` pieces.
    SplitOnSeparator { arity: usize, separator: String },
    /// The text is handed, whole, to the named function.
    CustomParser(String),
}

impl Strategy {
    /// Splitting uses a non-empty separator.
    pub open spec fn wf(&self) -> bool {
        match self {
            Strategy::SplitOnSeparator { separator, .. } => separator@.len() > 0,
            _ => true,
        }
    }
}

/// `s` is the strategy of a command with fields `shape`, parser `p` (the view
/// of a [`ParserKind`]) and separator `sep`.
pub open spec fn strategy_for(
    s: Strategy,
    shape: FieldShape,
    p: Option<Seq<char>>,
    sep: Seq<char>,
) -> bool {
    if field_count(shape) == 0 {
        s is NoArguments
    } else {
        match p {
            None => s matches Strategy::SplitOnSeparator { arity, separator } && arity
                == field_count(shape) && separator@ == sep,
            Some(f) => s matches Strategy::CustomParser(g) && g@ == f,
        }
    }
}

/// Chooses how the argument text of a command becomes its fields.
pub fn select_strategy(shape: FieldShape, parser: &ParserKind, separator: &str) -> (r: Strategy)
    ensures
        strategy_for(r, shape, parser@, separator@),
{
    let n: usize = match shape {
        FieldShape::Unit => 0,
        FieldShape::Unnamed(n) => n,
        FieldShape::Named(n) => n,
    };
    if n == 0 {
        Strategy::NoArguments
    } else {
        match parser {
            ParserKind::Split => Strategy::SplitOnSeparator {
                arity: n,
                separator: separator.to_owned(),
            },
            ParserKind::Custom(f) => Strategy::CustomParser(f.clone()),
        }
    }
}

/// A variant as the front end hands it over.
#[derive(Debug)]
pub struct Variant {
    pub ident: String,
    /// The pairs of its `command(...)` attributes, in order.
    pub attrs: Vec<Attr>,
    /// The entries of its doc comment, in order.
    pub doc: Vec<String>,
    pub shape: FieldShape,
}

/// One resolved command.
#[derive(Debug)]
pub struct Command {
    /// The variant's identifier.
    pub ident: String,
    /// The command word, without prefix.
    pub token: String,
    pub prefix: String,
    /// Empty where the command is hidden.
    pub description: String,
    /// Left out of the description table and the command list.
    pub hidden: bool,
    pub strategy: Strategy,
}

impl Command {
    /// A splitting command has a non-empty separator.
    pub open spec fn wf(&self) -> bool {
        self.strategy.wf()
    }

    /// The text that the parser compares the first word of a message against.
    pub open spec fn matched(&self) -> Seq<char> {
        self.prefix@ + self.token@
    }

    /// `self` is the command that variant `v` resolves to under `global`.
    pub open spec fn resolves(&self, global: CommandEnum, v: Variant) -> bool {
        let a = v.attrs@;
        let desc = last_of(a, AttrKind::Description);
        &&& self.ident@ == v.ident@
        &&& self.token@ == match last_of(a, AttrKind::Rename) {
            Some(t) => t,
            None => apply_rule(global.rename_rule, v.ident@),
        }
        &&& self.prefix@ == match last_of(a, AttrKind::Prefix) {
            Some(p) => p,
            None => global.prefix@,
        }
        &&& self.hidden == (last_of(a, AttrKind::Hide) is Some || desc == Some("off"@))
        &&& self.description@ == if self.hidden {
            Seq::empty()
        } else {
            match desc {
                Some(d) => d,
                None => doc_text(views(v.doc@)),
            }
        }
        &&& strategy_for(
            self.strategy,
            v.shape,
            match last_of(a, AttrKind::Parser) {
                Some(p) => parser_value(Some(p)),
                None => global.parser@,
            },
            match last_of(a, AttrKind::Separator) {
                Some(s) => s,
                None => global.separator@,
            },
        )
    }

    /// Resolves one variant under the enumeration-wide configuration.
    pub fn resolve(global: &CommandEnum, v: &Variant) -> (r: Result<Command, SpecError>)
        requires
            global.wf(),
        ensures
            r is Ok <==> variant_error(v.attrs@) is None,
            r matches Ok(c) ==> c.resolves(*global, *v) && c.wf(),
            r matches Err(e) ==> variant_error(v.attrs@) == Some(e@),
    {
        let set = match parse_attrs(&v.attrs) {
            Ok(set) => set,
            Err(name) => {
                return Err(SpecError::UnrecognizedAttribute(name));
            },
        };
        let separator = match &set.separator {
            Some(s) => {
                if s.as_str().unicode_len() == 0 {
                    assert(s@ =~= Seq::<char>::empty());
                    return Err(SpecError::EmptySeparator);
                }
                s.clone()
            },
            None => global.separator.clone(),
        };
        let token = match &set.rename {
            Some(t) => t.clone(),
            None => rename_by_rule(v.ident.as_str(), global.rename_rule),
        };
        let prefix = match &set.prefix {
            Some(p) => p.clone(),
            None => global.prefix.clone(),
        };
        let off = match &set.description {
            Some(d) => str_eq(d.as_str(), "off"),
            None => false,
        };
        let hidden = set.hide || off;
        let description = if hidden {
            String::new()
        } else {
            match &set.description {
                Some(d) => d.clone(),
                None => process_doc_comment(clone_lines(&v.doc)),
            }
        };
        let parser = match &set.parser {
            Some(p) => ParserKind::named(p.as_str()),
            None => global.parser.duplicate(),
        };
        let strategy = select_strategy(v.shape, &parser, separator.as_str());
        Ok(Command { ident: v.ident.clone(), token, prefix, description, hidden, strategy })
    }
}

fn clone_lines(v: &Vec<String>) -> (r: Vec<String>)
    ensures
        r@ == v@,
{
    let mut out: Vec<String> = Vec::new();
    let mut i: usize = 0;
    while i < v.len()
        invariant
            i <= v@.len(),
            out@ == v@.take(i as int),
        decreases v@.len() - i,
    {
        out.push(v[i].clone());
        assert(out@ =~= v@.take(i + 1));
        i = i + 1;
    }
    assert(v@.take(v@.len() as int) == v@);
    out
}

} // verus!
