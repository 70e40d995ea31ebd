//! Resolving a whole enumeration at once.
use vstd::prelude::*;

use crate::attr::Attr;
use crate::text::views;
use crate::command::{
    enum_error, matched_spec, variant_error, Command, CommandEnum, SpecError, SpecErrorView,
    Variant,
};

verus! {

/// The resolved configuration of an enumeration and of each of its variants.
#[derive(Debug)]
pub struct CommandSet {
    pub global: CommandEnum,
    /// One command per variant, in declaration order.
    pub commands: Vec<Command>,
}

/// The errors of the variants `vs`, in declaration order.
pub open spec fn variant_errors(vs: Seq<Variant>) -> Seq<SpecErrorView> {
    vs.filter_map(|v: Variant| variant_error(v.attrs@))
}

/// The first text that repeats one before it, if any.
pub open spec fn first_dup(ms: Seq<Seq<char>>) -> Option<Seq<char>>
    decreases ms.len(),
{
    if ms.len() == 0 {
        None
    } else {
        match first_dup(ms.drop_last()) {
            Some(d) => Some(d),
            None => if ms.drop_last().contains(ms.last()) {
                Some(ms.last())
            } else {
                None
            },
        }
    }
}

pub open spec fn matched_values(cs: Seq<Command>) -> Seq<Seq<char>> {
    cs.map_values(|c: Command| c.matched())
}

/// The errors of an enumeration with attributes `a` and variants `vs`: those
/// of its own attributes alone, where it has any; else the lack of variants;
/// else those of every variant; else the first repeated command text.
pub open spec fn compile_errors(a: Seq<Attr>, vs: Seq<Variant>) -> Seq<SpecErrorView> {
    match enum_error(a) {
        Some(e) => seq![e],
        None => if vs.len() == 0 {
            seq![SpecErrorView::NoVariants]
        } else if variant_errors(vs).len() > 0 {
            variant_errors(vs)
        } else {
            match first_dup(vs.map_values(|v: Variant| matched_spec(a, v))) {
                Some(m) => seq![SpecErrorView::DuplicateCommand(m)],
                None => Seq::empty(),
            }
        },
    }
}

pub open spec fn error_views(es: Seq<SpecError>) -> Seq<SpecErrorView> {
    es.map_values(|e: SpecError| e@)
}

/// The matched text of a resolved command follows from the attributes alone.
proof fn lemma_matched(global: CommandEnum, a: Seq<Attr>, c: Command, v: Variant)
    requires
        global.models(a),
        c.resolves(global, v),
    ensures
        c.matched() == matched_spec(a, v),
{
}

/// Resolves an enumeration: its attributes `enum_attrs` and its variants in
/// declaration order. Every variant is resolved, so that all their mistakes
/// are reported together.
pub fn compile(enum_attrs: &Vec<Attr>, variants: &Vec<Variant>) -> (r: Result<
    CommandSet,
    Vec<SpecError>,
>)
    ensures
        r is Ok <==> compile_errors(enum_attrs@, variants@).len() == 0,
        r matches Err(es) ==> error_views(es@) == compile_errors(enum_attrs@, variants@),
        r matches Ok(set) ==> {
            &&& set.global.models(enum_attrs@)
            &&& set.commands@.len() == variants@.len()
            &&& forall|i: int|
                0 <= i < variants@.len() ==> (#[trigger] set.commands@[i]).resolves(
                    set.global,
                    variants@[i],
                ) && set.commands@[i].wf()
            &&& first_dup(matched_values(set.commands@)) is None
            &&& set.wf()
        },
{
    let global = match CommandEnum::try_from(enum_attrs) {
        Ok(g) => g,
        Err(e) => {
            let mut es: Vec<SpecError> = Vec::new();
            es.push(e);
            assert(error_views(es@) =~= seq![e@]);
            return Err(es);
        },
    };
    if variants.len() == 0 {
        let mut es: Vec<SpecError> = Vec::new();
        es.push(SpecError::NoVariants);
        assert(error_views(es@) =~= seq![SpecErrorView::NoVariants]);
        return Err(es);
    }
    let ghost a = enum_attrs@;
    let ghost vs = variants@;
    let mut commands: Vec<Command> = Vec::new();
    let mut errors: Vec<SpecError> = Vec::new();
    let mut i: usize = 0;
    while i < variants.len()
        invariant
            global.wf(),
            vs == variants@,
            i <= vs.len(),
            error_views(errors@) == variant_errors(vs.take(i as int)),
            errors@.len() == 0 ==> {
                &&& commands@.len() == i
                &&& forall|j: int|
                    0 <= j < i ==> (#[trigger] commands@[j]).resolves(global, vs[j])
                        && commands@[j].wf()
            },
        decreases vs.len() - i,
    {
        let ghost t = vs.take(i + 1);
        assert(t.drop_last() =~= vs.take(i as int));
        assert(t.last() == vs[i as int]);
        match Command::resolve(&global, &variants[i]) {
            Ok(c) => {
                commands.push(c);
            },
            Err(e) => {
                let ghost before = errors@;
                errors.push(e);
                assert(error_views(errors@) =~= error_views(before) + seq![e@]);
            },
        }
        i = i + 1;
    }
    assert(vs.take(vs.len() as int) =~= vs);
    if errors.len() > 0 {
        return Err(errors);
    }
    let ghost ms = vs.map_values(|v: Variant| matched_spec(a, v));
    let mut texts: Vec<String> = Vec::new();
    let mut j: usize = 0;
    while j < commands.len()
        invariant
            commands@.len() == vs.len(),
            forall|k: int|
                0 <= k < vs.len() ==> (#[trigger] commands@[k]).resolves(global, vs[k])
                    && commands@[k].wf(),
            global.models(a),
            ms == vs.map_values(|v: Variant| matched_spec(a, v)),
            j <= vs.len(),
            texts@.len() == j,
            forall|k: int| 0 <= k < j ==> (#[trigger] texts@[k])@ == ms[k],
        decreases vs.len() - j,
    {
        let c = &commands[j];
        let m = c.prefix.clone().concat(c.token.as_str());
        proof {
            lemma_matched(global, a, commands@[j as int], vs[j as int]);
        }
        texts.push(m);
        j = j + 1;
    }
    match first_repeat(&texts) {
        Some(k) => {
            let mut es: Vec<SpecError> = Vec::new();
            let m = texts[k].clone();
            es.push(SpecError::DuplicateCommand(m));
            proof {
                assert(views(texts@) =~= ms);
                assert(error_views(es@) =~= seq![SpecErrorView::DuplicateCommand(m@)]);
            }
            Err(es)
        },
        None => {
            proof {
                assert(views(texts@) =~= ms);
                assert forall|k: int| 0 <= k < vs.len() implies #[trigger] matched_values(
                    commands@,
                )[k] == ms[k] by {
                    lemma_matched(global, a, commands@[k], vs[k]);
                }
                assert(matched_values(commands@) =~= ms);
            }
            Ok(CommandSet { global, commands })
        },
    }
}

/// The position of the first text that repeats one before it.
fn first_repeat(texts: &Vec<String>) -> (r: Option<usize>)
    ensures
        match r {
            Some(k) => k < texts@.len() && first_dup(views(texts@)) == Some(texts@[k as int]@),
            None => first_dup(views(texts@)) is None,
        },
{
    let ghost ms = views(texts@);
    let mut j: usize = 0;
    while j < texts.len()
        invariant
            ms == views(texts@),
            j <= texts@.len(),
            first_dup(ms.take(j as int)) is None,
        decreases texts@.len() - j,
    {
        let mut k: usize = 0;
        while k < j
            invariant
                ms == views(texts@),
                j < texts@.len(),
                first_dup(ms.take(j as int)) is None,
                k <= j,
                forall|l: int| 0 <= l < k ==> ms[l] != ms[j as int],
            decreases j - k,
        {
            if texts[k] == texts[j] {
                proof {
                    let t = ms.take(j + 1);
                    assert(t.drop_last() =~= ms.take(j as int));
                    assert(t.drop_last()[k as int] == t.last());
                    assert(t.drop_last().contains(t.last()));
                    assert(first_dup(t) == Some(t.last()));
                    assert(t.last() == texts@[j as int]@);
                    lemma_dup_extends(ms, j as int);
                }
                return Some(j);
            }
            k = k + 1;
        }
        proof {
            let t = ms.take(j + 1);
            assert(t.drop_last() =~= ms.take(j as int));
            assert(!t.drop_last().contains(t.last()));
        }
        j = j + 1;
    }
    assert(ms.take(ms.len() as int) =~= ms);
    None
}

/// Once a prefix has a repeat, every longer one reports the same.
proof fn lemma_dup_extends(ms: Seq<Seq<char>>, j: int)
    requires
        0 <= j < ms.len(),
        first_dup(ms.take(j + 1)) is Some,
    ensures
        first_dup(ms) == first_dup(ms.take(j + 1)),
    decreases ms.len() - j,
{
    if j + 1 == ms.len() {
        assert(ms.take(j + 1) =~= ms);
    } else {
        assert(ms.drop_last().take(j + 1) =~= ms.take(j + 1));
        lemma_dup_extends(ms.drop_last(), j);
    }
}

} // verus!
