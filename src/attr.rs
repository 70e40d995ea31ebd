//! The attribute model: validating the `(name, value)` pairs written on an
//! enumeration or on one of its variants.
use vstd::prelude::*;

use crate::text::str_eq;

verus! {

/// One `(name, value)` pair as written in a `command(...)` attribute; a marker
/// without a value carries an empty one.
#[derive(Debug)]
pub struct Attr {
    pub name: String,
    pub value: String,
}

/// The recognised option names.
#[derive(Clone, Copy, Debug, PartialEq, Eq, Structural)]
pub enum AttrKind {
    Rename,
    Prefix,
    Separator,
    Description,
    Parser,
    Hide,
}

/// The option that a name stands for, if any.
pub open spec fn kind_of(name: Seq<char>) -> Option<AttrKind> {
    if name == "rename"@ {
        Some(AttrKind::Rename)
    } else if name == "prefix"@ {
        Some(AttrKind::Prefix)
    } else if name == "separator"@ {
        Some(AttrKind::Separator)
    } else if name == "description"@ {
        Some(AttrKind::Description)
    } else if name == "parser"@ {
        Some(AttrKind::Parser)
    } else if name == "hide"@ {
        Some(AttrKind::Hide)
    } else {
        None
    }
}

/// The first unrecognised name among the pairs, if there is one.
pub open spec fn first_unknown(a: Seq<Attr>) -> Option<Seq<char>>
    decreases a.len(),
{
    if a.len() == 0 {
        None
    } else {
        match first_unknown(a.drop_last()) {
            Some(n) => Some(n),
            None => if kind_of(a.last().name@) is None {
                Some(a.last().name@)
            } else {
                None
            },
        }
    }
}

/// The value of the last pair of kind `k`, if there is one.
pub open spec fn last_of(a: Seq<Attr>, k: AttrKind) -> Option<Seq<char>>
    decreases a.len(),
{
    if a.len() == 0 {
        None
    } else if kind_of(a.last().name@) == Some(k) {
        Some(a.last().value@)
    } else {
        last_of(a.drop_last(), k)
    }
}

pub open spec fn opt_view(o: Option<String>) -> Option<Seq<char>> {
    match o {
        Some(s) => Some(s@),
        None => None,
    }
}

/// A validated attribute collection: one optional value per recognised
/// option, the last one written winning.
#[derive(Debug)]
pub struct AttrSet {
    pub rename: Option<String>,
    pub prefix: Option<String>,
    pub separator: Option<String>,
    pub description: Option<String>,
    pub parser: Option<String>,
    pub hide: bool,
}

impl AttrSet {
    /// `self` holds what the pairs `a` say.
    pub open spec fn models(&self, a: Seq<Attr>) -> bool {
        &&& opt_view(self.rename) == last_of(a, AttrKind::Rename)
        &&& opt_view(self.prefix) == last_of(a, AttrKind::Prefix)
        &&& opt_view(self.separator) == last_of(a, AttrKind::Separator)
        &&& opt_view(self.description) == last_of(a, AttrKind::Description)
        &&& opt_view(self.parser) == last_of(a, AttrKind::Parser)
        &&& self.hide == last_of(a, AttrKind::Hide) is Some
    }
}

/// The option that a name stands for, if any.
pub fn attr_kind(name: &str) -> (r: Option<AttrKind>)
    ensures
        r == kind_of(name@),
{
    if str_eq(name, "rename") {
        Some(AttrKind::Rename)
    } else if str_eq(name, "prefix") {
        Some(AttrKind::Prefix)
    } else if str_eq(name, "separator") {
        Some(AttrKind::Separator)
    } else if str_eq(name, "description") {
        Some(AttrKind::Description)
    } else if str_eq(name, "parser") {
        Some(AttrKind::Parser)
    } else if str_eq(name, "hide") {
        Some(AttrKind::Hide)
    } else {
        None
    }
}

/// Once the first `i + 1` pairs report an unknown name, every longer prefix
/// reports the same one.
proof fn lemma_unknown_extends(a: Seq<Attr>, i: int)
    requires
        0 <= i < a.len(),
        first_unknown(a.take(i + 1)) is Some,
    ensures
        first_unknown(a) == first_unknown(a.take(i + 1)),
    decreases a.len() - i,
{
    if i + 1 == a.len() {
        assert(a.take(i + 1) == a);
    } else {
        assert(a.drop_last().take(i + 1) == a.take(i + 1));
        lemma_unknown_extends(a.drop_last(), i);
    }
}

/// Validates a list of pairs. The first pair with an unrecognised name is
/// reported by that name; otherwise every option takes its last value.
pub fn parse_attrs(attrs: &Vec<Attr>) -> (r: Result<AttrSet, String>)
    ensures
        r is Ok <==> first_unknown(attrs@) is None,
        r matches Ok(set) ==> set.models(attrs@),
        r matches Err(name) ==> first_unknown(attrs@) == Some(name@),
{
    let mut set = AttrSet {
        rename: None,
        prefix: None,
        separator: None,
        description: None,
        parser: None,
        hide: false,
    };
    let mut i: usize = 0;
    while i < attrs.len()
        invariant
            i <= attrs@.len(),
            first_unknown(attrs@.take(i as int)) is None,
            set.models(attrs@.take(i as int)),
        decreases attrs@.len() - i,
    {
        let a = &attrs[i];
        let kind = attr_kind(a.name.as_str());
        let ghost t = attrs@.take(i + 1);
        assert(t.drop_last() == attrs@.take(i as int));
        assert(t.last() == attrs@[i as int]);
        match kind {
            None => {
                proof {
                    lemma_unknown_extends(attrs@, i as int);
                }
                return Err(a.name.clone());
            },
            Some(AttrKind::Rename) => {
                set.rename = Some(a.value.clone());
            },
            Some(AttrKind::Prefix) => {
                set.prefix = Some(a.value.clone());
            },
            Some(AttrKind::Separator) => {
                set.separator = Some(a.value.clone());
            },
            Some(AttrKind::Description) => {
                set.description = Some(a.value.clone());
            },
            Some(AttrKind::Parser) => {
                set.parser = Some(a.value.clone());
            },
            Some(AttrKind::Hide) => {
                set.hide = true;
            },
        }
        i = i + 1;
    }
    assert(attrs@.take(attrs@.len() as int) == attrs@);
    Ok(set)
}

} // verus!
