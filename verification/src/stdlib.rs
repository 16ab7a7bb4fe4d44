//! The standard library: helper functions written in the language, which are
//! copied into the programs that use them.

use vstd::prelude::*;

use crate::hir::{HirItem, HirItemView, HirProgram, HirProgramView};
use crate::lir::{FuncSymbolView, Function, FunctionImport, FunctionView};
use crate::module::{ModuleSpec, ModuleSpecView};
use crate::order::order_of;
use crate::table::{Member, Table};
use crate::text::{chars_of, owned, str_eq, string_of};
use crate::typed::{TypedProgram, TypedView};
use crate::{model, module, order};

verus! {

broadcast use crate::model::group_model;

/// A function by its module and its name.
pub type Name = (Seq<char>, Seq<char>);

/// A module that was checked.
#[derive(Debug)]
pub struct CheckedModule {
    pub hir: HirProgram,
    pub typed: TypedProgram,
}

/// The content of a [`CheckedModule`].
pub struct CheckedView {
    pub hir: HirProgramView,
    pub typed: TypedView,
}

impl View for CheckedModule {
    type V = CheckedView;

    open spec fn view(&self) -> CheckedView {
        CheckedView { hir: self.hir@, typed: self.typed@ }
    }
}

/// The functions that a module imports.
#[derive(Debug)]
pub struct ImportList(pub Vec<FunctionImport>);

impl View for ImportList {
    type V = Seq<FuncSymbolView>;

    open spec fn view(&self) -> Seq<FuncSymbolView> {
        model::all(self.0@)
    }
}

/// The standard library.
#[derive(Debug)]
pub struct Stdlib {
    /// The code of the helpers that are not generic.
    pub bodies: Table<Member, Function>,
    /// What the modules of the library import.
    pub module_imports: Table<String, ImportList>,
    /// What the modules of the library export.
    pub specs: Vec<ModuleSpec>,
    /// The modules of the library.
    pub checked: Vec<CheckedModule>,
}

/// The content of a [`Stdlib`].
pub struct LibraryView {
    pub bodies: Map<Name, FunctionView>,
    pub module_imports: Map<Seq<char>, Seq<FuncSymbolView>>,
    pub specs: Seq<ModuleSpecView>,
    pub checked: Seq<CheckedView>,
}

impl View for Stdlib {
    type V = LibraryView;

    open spec fn view(&self) -> LibraryView {
        LibraryView {
            bodies: self.bodies@,
            module_imports: self.module_imports@,
            specs: model::all(self.specs@),
            checked: model::all(self.checked@),
        }
    }
}

// ---------------------------------------------------------------------------
// Names
// ---------------------------------------------------------------------------

/// A dotted name with `$` for the dots.
pub open spec fn undotted(s: Seq<char>) -> Seq<char> {
    Seq::new(
        s.len(),
        |i: int|
            if s[i] == '.' {
                '$'
            } else {
                s[i]
            },
    )
}

/// The name that a helper has in the programs it is copied into.
pub open spec fn mangled(module: Seq<char>, function: Seq<char>) -> Seq<char> {
    undotted(module) + "$"@ + function
}

/// The name that a helper has in the programs it is copied into.
pub fn mangle(module: &str, function: &str) -> (r: String)
    ensures
        r@ == mangled(module@, function@),
{
    let cs = chars_of(module);
    let mut r = String::new();
    let mut i: usize = 0;
    assert(r@ =~= undotted(module@).take(0));
    while i < cs.len()
        invariant
            i <= cs@.len(),
            cs@ == module@,
            r@ == undotted(module@).take(i as int),
        decreases cs@.len() - i,
    {
        if cs[i] == '.' {
            r.push('$');
        } else {
            r.push(cs[i]);
        }
        assert(r@ =~= undotted(module@).take(i + 1));
        i += 1;
    }
    assert(r@ =~= undotted(module@));
    r.append("$");
    r.append(function);
    r
}

/// A mangled name is that of no function in source text: it holds a `$`, and
/// where the function's name has no dot, it holds no dot.
pub proof fn mangled_names_are_apart(module: Seq<char>, function: Seq<char>)
    ensures
        mangled(module, function).contains('$'),
        !function.contains('.') ==> !mangled(module, function).contains('.'),
        mangled(module, function).len() == module.len() + 1 + function.len(),
{
    reveal_strlit("$");
    let m = mangled(module, function);
    assert(m[module.len() as int] == '$');
    if !function.contains('.') && m.contains('.') {
        let i = choose|i: int| 0 <= i < m.len() && m[i] == '.';
        if i > module.len() {
            assert(function[i - module.len() - 1] == '.');
        }
    }
}

/// Helpers of one module keep apart: under one module, different functions get
/// different names.
pub proof fn mangling_is_injective(module: Seq<char>, f: Seq<char>, g: Seq<char>)
    requires
        mangled(module, f) == mangled(module, g),
    ensures
        f == g,
{
    let n = module.len() + "$"@.len();
    assert(mangled(module, f).skip(n as int) =~= f);
    assert(mangled(module, g).skip(n as int) =~= g);
}

/// The position of the first `$` from a position on.
pub open spec fn first_dollar(s: Seq<char>, i: int) -> int
    decreases s.len() - i,
{
    if i < 0 || i >= s.len() {
        s.len() as int
    } else if s[i] == '$' {
        i
    } else {
        first_dollar(s, i + 1)
    }
}

/// What stands before the first `$`.
pub open spec fn before_dollar(s: Seq<char>) -> Seq<char> {
    s.take(first_dollar(s, 0))
}

proof fn dollar_bounds(s: Seq<char>, i: int)
    requires
        0 <= i <= s.len(),
    ensures
        i <= first_dollar(s, i) <= s.len(),
        first_dollar(s, i) < s.len() ==> s[first_dollar(s, i)] == '$',
        forall|k: int| i <= k < first_dollar(s, i) ==> s[k] != '$',
    decreases s.len() - i,
{
    if i < s.len() && s[i] != '$' {
        dollar_bounds(s, i + 1);
    }
}

/// What stands before the first `$`, where there is one.
pub(crate) fn split_dollar(s: &str) -> (r: Option<String>)
    ensures
        match r {
            Some(b) => s@.contains('$') && b@ == before_dollar(s@),
            None => !s@.contains('$'),
        },
{
    let cs = chars_of(s);
    let mut i: usize = 0;
    while i < cs.len()
        invariant
            i <= cs@.len(),
            cs@ == s@,
            forall|k: int| 0 <= k < i ==> s@[k] != '$',
            first_dollar(s@, 0) == first_dollar(s@, i as int),
        decreases cs@.len() - i,
    {
        if cs[i] == '$' {
            let b = string_of(&cs, 0, i);
            assert(s@[i as int] == '$');
            assert(b@ =~= before_dollar(s@));
            return Some(b);
        }
        i += 1;
    }
    None
}

fn has_dollar(s: &str) -> (r: bool)
    ensures
        r == s@.contains('$'),
{
    split_dollar(s).is_some()
}

// ---------------------------------------------------------------------------
// Helpers
// ---------------------------------------------------------------------------

/// Whether an item is a generic function with a name.
pub open spec fn is_generic_fn(item: HirItemView, t: TypedView, function: Seq<char>) -> bool {
    item matches HirItemView::Fn { def: Some(d), name, .. } && name == function
        && t.func_sigs.dom().contains(d.0) && t.func_sigs[d.0].type_params.len() > 0
}

/// Whether an item is a function with a name that is not generic, and known to
/// the type checker.
pub open spec fn is_known_fn(item: HirItemView, t: TypedView, function: Seq<char>) -> bool {
    item matches HirItemView::Fn { def: Some(d), name, type_params, .. } && name == function
        && type_params.len() == 0 && t.func_sigs.dom().contains(d.0)
}

/// Whether a module of the library has a generic function with a name.
pub open spec fn is_generic_template(l: LibraryView, module: Seq<char>, function: Seq<char>) -> bool {
    !function.contains('$') && exists|i: int, j: int|
        0 <= i < l.checked.len() && l.checked[i].hir.module == module && 0 <= j
            < l.checked[i].hir.items.len() && is_generic_fn(
            #[trigger] l.checked[i].hir.items[j],
            l.checked[i].typed,
            function,
        )
}

/// Whether a name is that of an instance of a generic function of the library.
pub open spec fn is_generic_instance(l: LibraryView, module: Seq<char>, function: Seq<char>) -> bool {
    function.contains('$') && is_generic_template(l, module, before_dollar(function))
}

/// Whether a name is that of a function of the library that is neither generic
/// nor kept as code.
pub open spec fn is_plan_mono(l: LibraryView, module: Seq<char>, function: Seq<char>) -> bool {
    !function.contains('$') && !l.bodies.dom().contains((module, function)) && exists|
        i: int,
        j: int,
    |
        0 <= i < l.checked.len() && l.checked[i].hir.module == module && 0 <= j
            < l.checked[i].hir.items.len() && is_known_fn(
            #[trigger] l.checked[i].hir.items[j],
            l.checked[i].typed,
            function,
        )
}

/// Whether a name is that of a helper.
pub open spec fn is_helper(l: LibraryView, module: Seq<char>, function: Seq<char>) -> bool {
    l.bodies.dom().contains((module, function)) || is_generic_template(l, module, function)
        || is_generic_instance(l, module, function)
}

/// Whether a module of the library offers a helper under a name.
pub open spec fn offers(l: LibraryView, module: Seq<char>, function: Seq<char>) -> bool {
    l.bodies.dom().contains((module, function)) || exists|i: int, j: int|
        0 <= i < l.checked.len() && l.checked[i].hir.module == module && 0 <= j
            < l.checked[i].hir.items.len() && is_generic_fn(
            #[trigger] l.checked[i].hir.items[j],
            l.checked[i].typed,
            function,
        )
}

/// Names as sorting keys.
pub open spec fn name_keys(ns: Seq<Seq<char>>) -> Seq<Seq<Seq<char>>> {
    Seq::new(ns.len(), |i: int| seq![ns[i]])
}

fn generic_fn(item: &HirItem, t: &TypedProgram, function: &str) -> (r: bool)
    ensures
        r == is_generic_fn(item@, t@, function@),
{
    match item {
        HirItem::Fn { def, name, .. } => match def {
            Some(d) => str_eq(name.as_str(), function) && match t.func_sigs.get(&d.0) {
                Some(sig) => {
                    assert(sig@.type_params.len() == sig.type_params@.len());
                    sig.type_params.len() > 0
                },
                None => false,
            },
            None => false,
        },
        _ => false,
    }
}

fn known_fn(item: &HirItem, t: &TypedProgram, function: &str) -> (r: bool)
    ensures
        r == is_known_fn(item@, t@, function@),
{
    match item {
        HirItem::Fn { def, name, type_params, .. } => match def {
            Some(d) => str_eq(name.as_str(), function) && type_params.len() == 0
                && t.func_sigs.contains(&d.0),
            None => false,
        },
        _ => false,
    }
}

impl Stdlib {
    fn finds_generic(&self, module: &str, function: &str) -> (r: bool)
        ensures
            r == exists|i: int, j: int|
                0 <= i < self@.checked.len() && self@.checked[i].hir.module == module@ && 0 <= j
                    < self@.checked[i].hir.items.len() && is_generic_fn(
                    #[trigger] self@.checked[i].hir.items[j],
                    self@.checked[i].typed,
                    function@,
                ),
    {
        let ghost all = self@.checked;
        let mut i: usize = 0;
        while i < self.checked.len()
            invariant
                i <= self.checked@.len(),
                all == model::all(self.checked@),
                forall|a: int, b: int|
                    0 <= a < i && all[a].hir.module == module@ && 0 <= b < all[a].hir.items.len()
                        ==> !is_generic_fn(
                        #[trigger] all[a].hir.items[b],
                        all[a].typed,
                        function@,
                    ),
            decreases self.checked@.len() - i,
        {
            let c = &self.checked[i];
            assert(c@ == all[i as int]);
            if str_eq(c.hir.module.as_str(), module) {
                let mut j: usize = 0;
                while j < c.hir.items.len()
                    invariant
                        i < self.checked@.len(),
                        all == self@.checked,
                        c@ == all[i as int],
                        all[i as int].hir.module == module@,
                        j <= c.hir.items@.len(),
                        forall|b: int|
                            0 <= b < j ==> !is_generic_fn(
                                #[trigger] all[i as int].hir.items[b],
                                c@.typed,
                                function@,
                            ),
                    decreases c.hir.items@.len() - j,
                {
                    assert(all[i as int].hir.items[j as int] == c.hir.items@[j as int]@);
                    if generic_fn(&c.hir.items[j], &c.typed, function) {
                        return true;
                    }
                    j += 1;
                }
            }
            i += 1;
        }
        false
    }

    /// Whether a module of the library has a generic function with a name.
    pub fn is_generic_template(&self, module: &str, function: &str) -> (r: bool)
        ensures
            r == is_generic_template(self@, module@, function@),
    {
        !has_dollar(function) && self.finds_generic(module, function)
    }

    /// Whether a name is that of an instance of a generic function of the
    /// library.
    pub fn is_concrete_generic_instance(&self, module: &str, function: &str) -> (r: bool)
        ensures
            r == is_generic_instance(self@, module@, function@),
    {
        match split_dollar(function) {
            Some(base) => self.is_generic_template(module, base.as_str()),
            None => false,
        }
    }

    /// Whether a name is that of a function of the library that is neither
    /// generic nor kept as code.
    pub fn is_plan_mono(&self, module: &str, function: &str) -> (r: bool)
        ensures
            r == is_plan_mono(self@, module@, function@),
    {
        if has_dollar(function) || self.bodies.contains(
            &Member(owned(module), owned(function)),
        ) {
            return false;
        }
        let ghost all = self@.checked;
        let mut i: usize = 0;
        while i < self.checked.len()
            invariant
                i <= self.checked@.len(),
                all == model::all(self.checked@),
                forall|a: int, b: int|
                    0 <= a < i && all[a].hir.module == module@ && 0 <= b < all[a].hir.items.len()
                        ==> !is_known_fn(
                        #[trigger] all[a].hir.items[b],
                        all[a].typed,
                        function@,
                    ),
                !function@.contains('$'),
                !self@.bodies.dom().contains((module@, function@)),
            decreases self.checked@.len() - i,
        {
            let c = &self.checked[i];
            assert(c@ == all[i as int]);
            if str_eq(c.hir.module.as_str(), module) {
                let mut j: usize = 0;
                while j < c.hir.items.len()
                    invariant
                        i < self.checked@.len(),
                        all == self@.checked,
                        c@ == all[i as int],
                        all[i as int].hir.module == module@,
                        j <= c.hir.items@.len(),
                        forall|b: int|
                            0 <= b < j ==> !is_known_fn(
                                #[trigger] all[i as int].hir.items[b],
                                c@.typed,
                                function@,
                            ),
                        !function@.contains('$'),
                        !self@.bodies.dom().contains((module@, function@)),
                    decreases c.hir.items@.len() - j,
                {
                    assert(all[i as int].hir.items[j as int] == c.hir.items@[j as int]@);
                    if known_fn(&c.hir.items[j], &c.typed, function) {
                        return true;
                    }
                    j += 1;
                }
            }
            i += 1;
        }
        false
    }

    /// Whether a name is that of a helper.
    pub fn is_helper(&self, module: &str, function: &str) -> (r: bool)
        ensures
            r == is_helper(self@, module@, function@),
    {
        self.bodies.contains(&Member(owned(module), owned(function)))
            || self.is_generic_template(module, function) || self.is_concrete_generic_instance(
            module,
            function,
        )
    }

    /// The modules of the library.
    pub fn checked_modules(&self) -> (r: &[CheckedModule])
        ensures
            model::all(r@) == self@.checked,
    {
        self.checked.as_slice()
    }
}

fn holds(names: &Vec<String>, name: &str) -> (r: bool)
    ensures
        r == model::all(names@).contains(name@),
{
    let mut i: usize = 0;
    while i < names.len()
        invariant
            i <= names@.len(),
            forall|k: int| 0 <= k < i ==> model::all(names@)[k] != name@,
        decreases names@.len() - i,
    {
        if str_eq(names[i].as_str(), name) {
            assert(model::all(names@)[i as int] == name@);
            return true;
        }
        i += 1;
    }
    false
}

proof fn adding_a_name(ns: Seq<Seq<char>>, n: Seq<char>)
    requires
        ns.no_duplicates(),
        !ns.contains(n),
    ensures
        ns.push(n).no_duplicates(),
        forall|k: Seq<char>| #[trigger] ns.push(n).contains(k) <==> ns.contains(k) || k == n,
{
    assert forall|k: Seq<char>| #[trigger] ns.push(n).contains(k) <==> ns.contains(k) || k == n by {
        if ns.push(n).contains(k) {
            let i = choose|i: int| 0 <= i < ns.push(n).len() && ns.push(n)[i] == k;
            if i < ns.len() {
                assert(ns[i] == k);
            }
        }
        if ns.contains(k) {
            let i = choose|i: int| 0 <= i < ns.len() && ns[i] == k;
            assert(ns.push(n)[i] == k);
        }
        if k == n {
            assert(ns.push(n)[ns.len() as int] == k);
        }
    }
}

impl Stdlib {
    fn body_names(&self, module: &str) -> (r: Vec<String>)
        ensures
            model::all(r@).no_duplicates(),
            forall|f: Seq<char>| #[trigger]
                model::all(r@).contains(f) <==> self@.bodies.dom().contains((module@, f)),
    {
        let keys = self.bodies.keys();
        let mut names: Vec<String> = Vec::new();
        let mut i: usize = 0;
        while i < keys.len()
            invariant
                i <= keys@.len(),
                model::all(names@).no_duplicates(),
                forall|f: Seq<char>| #[trigger]
                    model::all(names@).contains(f) <==> exists|k: int|
                        0 <= k < i && (#[trigger] keys@[k])@ == (module@, f),
            decreases keys@.len() - i,
        {
            let ghost before = model::all(names@);
            let key = keys[i];
            if str_eq(key.0.as_str(), module) && !holds(&names, key.1.as_str()) {
                proof {
                    adding_a_name(before, key.1@);
                }
                names.push(key.1.clone());
            }
            proof {
                assert forall|f: Seq<char>| #[trigger]
                    model::all(names@).contains(f) <==> exists|k: int|
                        0 <= k < i + 1 && (#[trigger] keys@[k])@ == (module@, f) by {
                    if model::all(names@).contains(f) && !before.contains(f) {
                        assert(keys@[i as int]@ == (module@, f));
                    }
                    if exists|k: int| 0 <= k < i + 1 && (#[trigger] keys@[k])@ == (module@, f) {
                        let k = choose|k: int|
                            0 <= k < i + 1 && (#[trigger] keys@[k])@ == (module@, f);
                        if k < i {
                            assert(before.contains(f));
                        }
                    }
                }
            }
            i += 1;
        }
        names
    }

    /// The helpers that a module of the library offers, in order.
    pub fn helper_names(&self, module: &str) -> (r: Vec<String>)
        ensures
            model::all(r@).no_duplicates(),
            forall|f: Seq<char>| #[trigger]
                model::all(r@).contains(f) <==> offers(self@, module@, f),
            forall|i: int, j: int|
                0 <= i < j < r@.len() ==> order::text_le(
                    #[trigger] model::all(r@)[i],
                    #[trigger] model::all(r@)[j],
                ),
    {
        let ghost all = self@.checked;
        let mut names = self.body_names(module);
        let mut i: usize = 0;
        while i < self.checked.len()
            invariant
                i <= self.checked@.len(),
                all == model::all(self.checked@),
                model::all(names@).no_duplicates(),
                forall|f: Seq<char>| #[trigger]
                    model::all(names@).contains(f) <==> (self@.bodies.dom().contains((module@, f))
                        || exists|a: int, b: int|
                        0 <= a < i && all[a].hir.module == module@ && 0 <= b
                            < all[a].hir.items.len() && is_generic_fn(
                            #[trigger] all[a].hir.items[b],
                            all[a].typed,
                            f,
                        )),
            decreases self.checked@.len() - i,
        {
            let c = &self.checked[i];
            assert(c@ == all[i as int]);
            let ghost start = model::all(names@);
            if str_eq(c.hir.module.as_str(), module) {
                let mut j: usize = 0;
                while j < c.hir.items.len()
                    invariant
                        i < self.checked@.len(),
                        all == self@.checked,
                        c@ == all[i as int],
                        j <= c.hir.items@.len(),
                        model::all(names@).no_duplicates(),
                        forall|f: Seq<char>| #[trigger]
                            model::all(names@).contains(f) <==> (start.contains(f) || exists|b: int|
                                0 <= b < j && is_generic_fn(
                                    #[trigger] all[i as int].hir.items[b],
                                    c@.typed,
                                    f,
                                )),
                    decreases c.hir.items@.len() - j,
                {
                    assert(all[i as int].hir.items[j as int] == c.hir.items@[j as int]@);
                    let ghost before = model::all(names@);
                    let found: Option<String> = match &c.hir.items[j] {
                        HirItem::Fn { name, .. } => if generic_fn(
                            &c.hir.items[j],
                            &c.typed,
                            name.as_str(),
                        ) && !holds(&names, name.as_str()) {
                            Some(name.clone())
                        } else {
                            None
                        },
                        _ => None,
                    };
                    match found {
                        Some(name) => {
                            proof {
                                adding_a_name(before, name@);
                            }
                            names.push(name);
                        },
                        None => {},
                    }
                    proof {
                        assert forall|f: Seq<char>| #[trigger]
                            model::all(names@).contains(f) <==> (start.contains(f) || exists|b: int|
                                0 <= b < j + 1 && is_generic_fn(
                                    #[trigger] all[i as int].hir.items[b],
                                    c@.typed,
                                    f,
                                )) by {
                            if model::all(names@).contains(f) && !before.contains(f) {
                                assert(is_generic_fn(
                                    all[i as int].hir.items[j as int],
                                    c@.typed,
                                    f,
                                ));
                            }
                            if is_generic_fn(all[i as int].hir.items[j as int], c@.typed, f) {
                                assert(model::all(names@).contains(f));
                            }
                        }
                    }
                    j += 1;
                }
            }
            i += 1;
        }
        sort_names(&names)
    }
}

fn sort_names(names: &Vec<String>) -> (r: Vec<String>)
    requires
        model::all(names@).no_duplicates(),
    ensures
        model::all(r@).no_duplicates(),
        forall|f: Seq<char>| #[trigger]
            model::all(r@).contains(f) <==> model::all(names@).contains(f),
        forall|i: int, j: int|
            0 <= i < j < r@.len() ==> order::text_le(
                #[trigger] model::all(r@)[i],
                #[trigger] model::all(r@)[j],
            ),
{
    let ghost all = model::all(names@);
    let mut keys: Vec<Vec<String>> = Vec::new();
    let mut i: usize = 0;
    while i < names.len()
        invariant
            i <= names@.len(),
            keys@.len() == i,
            forall|k: int| 0 <= k < i ==> model::all((#[trigger] keys@[k])@) == seq![names@[k]@],
        decreases names@.len() - i,
    {
        let mut key: Vec<String> = Vec::new();
        key.push(names[i].clone());
        assert(model::all(key@) =~= seq![names@[i as int]@]);
        keys.push(key);
        i += 1;
    }
    assert(order::lists_view(keys@) =~= name_keys(all));
    let order = order_of(&keys);
    let ghost o = order::sorted_order(name_keys(all), all.len());
    proof {
        order::sorting_sorts(name_keys(all), all.len());
        assert(order::indices(order@).len() == order@.len());
    }
    let mut out: Vec<String> = Vec::new();
    let mut j: usize = 0;
    while j < order.len()
        invariant
            j <= order@.len(),
            all == model::all(names@),
            o == order::indices(order@),
            forall|k: int| 0 <= k < order@.len() ==> (#[trigger] order@[k]) < names@.len(),
            out@.len() == j,
            forall|k: int| 0 <= k < j ==> (#[trigger] out@[k])@ == all[o[k]],
        decreases order@.len() - j,
    {
        assert(o[j as int] == order@[j as int]);
        out.push(names[order[j]].clone());
        j += 1;
    }
    proof {
        let sorted = model::all(out@);
        assert forall|k: int| 0 <= k < sorted.len() implies #[trigger] sorted[k] == all[o[k]] && 0
            <= o[k] < all.len() by {
            assert(out@[k]@ == all[o[k]]);
            assert(o.contains(o[k]));
        }
        assert forall|a: int, b: int| 0 <= a < b < sorted.len() implies order::text_le(
            #[trigger] sorted[a],
            #[trigger] sorted[b],
        ) by {
            assert(order::list_le(name_keys(all)[o[a]], name_keys(all)[o[b]]));
            one_text(all[o[a]], all[o[b]]);
        }
        assert forall|a: int, b: int| 0 <= a < sorted.len() && 0 <= b < sorted.len() && a
            != b implies sorted[a] != sorted[b] by {
            assert(o[a] != o[b]);
        }
        assert forall|f: Seq<char>| #[trigger] sorted.contains(f) <==> all.contains(f) by {
            if sorted.contains(f) {
                let k = choose|k: int| 0 <= k < sorted.len() && sorted[k] == f;
                assert(all[o[k]] == f);
            }
            if all.contains(f) {
                let k = choose|k: int| 0 <= k < all.len() && all[k] == f;
                assert(o.contains(k));
                let p = choose|p: int| 0 <= p < o.len() && o[p] == k;
                assert(sorted[p] == f);
            }
        }
    }
    out
}

proof fn one_text(a: Seq<char>, b: Seq<char>)
    requires
        order::list_le(seq![a], seq![b]),
    ensures
        order::text_le(a, b),
{
    order::same_text(a);
}

} // verus!
