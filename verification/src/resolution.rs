//! The result of name resolution: definitions, and what each use refers to.

use vstd::prelude::*;

use crate::ast::BindingKind;
use crate::model;
use crate::module::{ExportKind, FuncSig, FuncSigView, SymbolRef, SymbolView};
use crate::span::Span;
use crate::table::{Place, Table};
use crate::table;

verus! {

broadcast use crate::model::group_model;

/// Identifies a definition.
#[derive(Debug, Clone, Copy, PartialEq, Eq, Structural)]
pub struct DefId(pub u32);

impl View for DefId {
    type V = DefId;

    open spec fn view(&self) -> DefId {
        *self
    }
}

/// What a definition is.
#[derive(Debug, Clone, Copy, PartialEq, Eq, Structural)]
pub enum DefKind {
    Local,
    Parameter,
    External,
    ImportedFunction,
    ModuleAlias,
}

/// A definition.
#[derive(Debug)]
pub struct Def {
    pub id: DefId,
    pub name: String,
    pub span: Span,
    pub kind: DefKind,
    pub sig: Option<FuncSig>,
    pub export_kind: Option<ExportKind>,
    pub binding: Option<BindingKind>,
    pub symbol: Option<SymbolRef>,
}

/// The content of a [`Def`].
pub struct DefView {
    pub id: DefId,
    pub name: Seq<char>,
    pub span: Span,
    pub kind: DefKind,
    pub sig: Option<FuncSigView>,
    pub export_kind: Option<ExportKind>,
    pub binding: Option<BindingKind>,
    pub symbol: Option<SymbolView>,
}

impl View for Def {
    type V = DefView;

    open spec fn view(&self) -> DefView {
        DefView {
            id: self.id,
            name: self.name@,
            span: self.span,
            kind: self.kind,
            sig: model::opt(self.sig),
            export_kind: self.export_kind,
            binding: self.binding,
            symbol: model::opt(self.symbol),
        }
    }
}

/// A use of a union variant.
#[derive(Debug)]
pub struct VariantUse {
    pub union: String,
    pub variant: String,
}

/// The content of a [`VariantUse`].
pub struct VariantUseView {
    pub union: Seq<char>,
    pub variant: Seq<char>,
}

impl View for VariantUse {
    type V = VariantUseView;

    open spec fn view(&self) -> VariantUseView {
        VariantUseView { union: self.union@, variant: self.variant@ }
    }
}

/// The result of name resolution.
#[derive(Debug)]
pub struct Resolution {
    /// The definition that a use at a place refers to.
    pub uses: Table<Place, DefId>,
    /// All definitions, in the order in which they were found.
    pub defs: Vec<Def>,
    /// The receiver of a call `value.method(..)`, by the place of the callee.
    pub sugar_receivers: Table<Place, DefId>,
    /// The union variants that are constructed, by their place.
    pub variants: Table<Place, VariantUse>,
    /// The unions that match arms name, by the place of the arm's path.
    pub match_patterns: Table<Place, String>,
    /// Whether an import could not be used.
    pub poisoned_imports: bool,
}

/// The content of a [`Resolution`].
pub struct ResolutionView {
    pub uses: Map<Place, DefId>,
    pub defs: Seq<DefView>,
    pub sugar_receivers: Map<Place, DefId>,
    pub variants: Map<Place, VariantUseView>,
    pub match_patterns: Map<Place, Seq<char>>,
    pub poisoned_imports: bool,
}

impl View for Resolution {
    type V = ResolutionView;

    open spec fn view(&self) -> ResolutionView {
        ResolutionView {
            uses: self.uses@,
            defs: model::all(self.defs@),
            sugar_receivers: self.sugar_receivers@,
            variants: self.variants@,
            match_patterns: self.match_patterns@,
            poisoned_imports: self.poisoned_imports,
        }
    }
}

/// The empty result.
pub open spec fn nothing_resolved() -> ResolutionView {
    ResolutionView {
        uses: Map::empty(),
        defs: Seq::empty(),
        sugar_receivers: Map::empty(),
        variants: Map::empty(),
        match_patterns: Map::empty(),
        poisoned_imports: false,
    }
}

/// The first of the definitions with the given identifier.
pub open spec fn def_with_id(defs: Seq<DefView>, id: DefId) -> Option<DefView>
    decreases defs.len(),
{
    if defs.len() == 0 {
        None
    } else {
        match def_with_id(defs.drop_last(), id) {
            Some(d) => Some(d),
            None => if defs.last().id == id {
                Some(defs.last())
            } else {
                None
            },
        }
    }
}

/// The first of the definitions at the given place.
pub open spec fn def_with_span(defs: Seq<DefView>, span: Span) -> Option<DefView>
    decreases defs.len(),
{
    if defs.len() == 0 {
        None
    } else {
        match def_with_span(defs.drop_last(), span) {
            Some(d) => Some(d),
            None => if defs.last().span == span {
                Some(defs.last())
            } else {
                None
            },
        }
    }
}

/// The definition that a use at the given place refers to.
pub open spec fn used_def(r: ResolutionView, span: Span) -> Option<DefView> {
    if r.uses.dom().contains(table::place_of(span)) {
        def_with_id(r.defs, r.uses[table::place_of(span)])
    } else {
        None
    }
}

proof fn id_stays(defs: Seq<DefView>, n: int, id: DefId)
    requires
        0 <= n <= defs.len(),
        def_with_id(defs.take(n), id) is Some,
    ensures
        def_with_id(defs, id) == def_with_id(defs.take(n), id),
    decreases defs.len() - n,
{
    if n == defs.len() {
        assert(defs.take(n) =~= defs);
    } else {
        assert(defs.take(n + 1).drop_last() =~= defs.take(n));
        id_stays(defs, n + 1, id);
    }
}

proof fn span_stays(defs: Seq<DefView>, n: int, span: Span)
    requires
        0 <= n <= defs.len(),
        def_with_span(defs.take(n), span) is Some,
    ensures
        def_with_span(defs, span) == def_with_span(defs.take(n), span),
    decreases defs.len() - n,
{
    if n == defs.len() {
        assert(defs.take(n) =~= defs);
    } else {
        assert(defs.take(n + 1).drop_last() =~= defs.take(n));
        span_stays(defs, n + 1, span);
    }
}

/// The first of the definitions with the given identifier.
pub fn find_def(defs: &Vec<Def>, id: DefId) -> (r: Option<&Def>)
    ensures
        match r {
            Some(d) => def_with_id(model::all(defs@), id) == Some(d@),
            None => def_with_id(model::all(defs@), id) is None,
        },
{
    let mut i: usize = 0;
    let ghost all = model::all(defs@);
    assert(all.take(0).len() == 0);
    while i < defs.len()
        invariant
            i <= defs@.len(),
            all == model::all(defs@),
            def_with_id(all.take(i as int), id) is None,
        decreases defs@.len() - i,
    {
        assert(all.take(i + 1).drop_last() =~= all.take(i as int));
        assert(all.take(i + 1).last() == defs@[i as int]@);
        if defs[i].id == id {
            proof {
                id_stays(all, i + 1, id);
            }
            return Some(&defs[i]);
        }
        i += 1;
    }
    assert(all.take(all.len() as int) =~= all);
    None
}

impl Resolution {
    /// An empty result.
    pub fn new() -> (r: Self)
        ensures
            r@ == nothing_resolved(),
    {
        Resolution {
            uses: Table::new(),
            defs: Vec::new(),
            sugar_receivers: Table::new(),
            variants: Table::new(),
            match_patterns: Table::new(),
            poisoned_imports: false,
        }
    }

    /// The definition that a use at the given place refers to.
    pub fn def_of(&self, use_span: Span) -> (r: Option<&Def>)
        ensures
            match r {
                Some(d) => used_def(self@, use_span) == Some(d@),
                None => used_def(self@, use_span) is None,
            },
    {
        match self.uses.get(&Place::of(use_span)) {
            Some(id) => find_def(&self.defs, *id),
            None => None,
        }
    }

    /// The first definition at the given place.
    pub fn def_at(&self, def_span: Span) -> (r: Option<&Def>)
        ensures
            match r {
                Some(d) => def_with_span(self@.defs, def_span) == Some(d@),
                None => def_with_span(self@.defs, def_span) is None,
            },
    {
        let mut i: usize = 0;
        let ghost all = model::all(self.defs@);
        assert(all.take(0).len() == 0);
        while i < self.defs.len()
            invariant
                i <= self.defs@.len(),
                all == model::all(self.defs@),
                def_with_span(all.take(i as int), def_span) is None,
            decreases self.defs@.len() - i,
        {
            assert(all.take(i + 1).drop_last() =~= all.take(i as int));
            assert(all.take(i + 1).last() == self.defs@[i as int]@);
            if self.defs[i].span == def_span {
                proof {
                    span_stays(all, i + 1, def_span);
                }
                return Some(&self.defs[i]);
            }
            i += 1;
        }
        assert(all.take(all.len() as int) =~= all);
        None
    }
}

} // verus!
