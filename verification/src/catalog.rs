//! Catalogs of modules, and adding modules to them.

use vstd::prelude::*;

use crate::module::{
    Export, ExportView, ModuleSpec, ModuleSpecView, ObjectExport, ObjectExportView, UnionExport,
    UnionExportView,
};
use crate::module::find_export;
use crate::resolver::same_path;
use crate::stdlib::Stdlib;
use crate::text::{clone_vec, str_eq};
use crate::{model, module};

verus! {

broadcast use crate::model::group_model;

/// The first module of a catalog with a path, at or behind a position.
pub open spec fn module_from(cat: Seq<ModuleSpecView>, path: Seq<Seq<char>>, i: int) -> Option<int>
    decreases cat.len() - i,
{
    if i < 0 || i >= cat.len() {
        None
    } else if cat[i].path == path {
        Some(i)
    } else {
        module_from(cat, path, i + 1)
    }
}

/// The first module of a catalog with a path.
pub open spec fn module_at(cat: Seq<ModuleSpecView>, path: Seq<Seq<char>>) -> Option<int> {
    module_from(cat, path, 0)
}

/// Whether one of the exports has a name that is taken, by those that are there
/// or by one before it.
pub open spec fn exports_collide(have: Seq<ExportView>, more: Seq<ExportView>) -> bool {
    exists|j: int|
        0 <= j < more.len() && module::first_named(have + more.take(j), (#[trigger] more[j]).name)
            is Some
}

/// Whether there is an object type with a full name.
pub open spec fn has_object(have: Seq<ObjectExportView>, qualified: Seq<char>) -> bool {
    exists|i: int| 0 <= i < have.len() && (#[trigger] have[i]).qualified == qualified
}

/// Whether there is a union type with a full name.
pub open spec fn has_union(have: Seq<UnionExportView>, qualified: Seq<char>) -> bool {
    exists|i: int| 0 <= i < have.len() && (#[trigger] have[i]).qualified == qualified
}

/// The object types with those of others that are not there yet.
pub open spec fn with_objects(have: Seq<ObjectExportView>, more: Seq<ObjectExportView>) -> Seq<
    ObjectExportView,
>
    decreases more.len(),
{
    if more.len() == 0 {
        have
    } else {
        let front = with_objects(have, more.drop_last());
        if has_object(front, more.last().qualified) {
            front
        } else {
            front.push(more.last())
        }
    }
}

/// The union types with those of others that are not there yet.
pub open spec fn with_unions(have: Seq<UnionExportView>, more: Seq<UnionExportView>) -> Seq<
    UnionExportView,
>
    decreases more.len(),
{
    if more.len() == 0 {
        have
    } else {
        let front = with_unions(have, more.drop_last());
        if has_union(front, more.last().qualified) {
            front
        } else {
            front.push(more.last())
        }
    }
}

/// The catalog with a module added: to the module with its path, or at the end.
/// Object types are taken over where asked for.
pub open spec fn merged(cat: Seq<ModuleSpecView>, s: ModuleSpecView, objects: bool) -> Seq<
    ModuleSpecView,
> {
    match module_at(cat, s.path) {
        Some(i) => cat.update(
            i,
            ModuleSpecView {
                exports: cat[i].exports + s.exports,
                objects: if objects {
                    with_objects(cat[i].objects, s.objects)
                } else {
                    cat[i].objects
                },
                unions: with_unions(cat[i].unions, s.unions),
                ..cat[i]
            },
        ),
        None => cat.push(s),
    }
}

/// The catalog with modules added in order.
pub open spec fn merged_all(cat: Seq<ModuleSpecView>, ss: Seq<ModuleSpecView>, objects: bool) -> Seq<
    ModuleSpecView,
>
    decreases ss.len(),
{
    if ss.len() == 0 {
        cat
    } else {
        merged(merged_all(cat, ss.drop_last(), objects), ss.last(), objects)
    }
}

/// Whether a module has an export whose name is taken in a catalog.
pub open spec fn collides(cat: Seq<ModuleSpecView>, s: ModuleSpecView) -> bool {
    match module_at(cat, s.path) {
        Some(i) => exports_collide(cat[i].exports, s.exports),
        None => false,
    }
}

/// Whether one of the modules, added in order, has an export whose name is
/// taken.
pub open spec fn some_collide(cat: Seq<ModuleSpecView>, ss: Seq<ModuleSpecView>, objects: bool) -> bool
    decreases ss.len(),
{
    ss.len() > 0 && (some_collide(cat, ss.drop_last(), objects) || collides(
        merged_all(cat, ss.drop_last(), objects),
        ss.last(),
    ))
}

proof fn module_from_bounds(cat: Seq<ModuleSpecView>, path: Seq<Seq<char>>, i: int)
    requires
        0 <= i,
    ensures
        module_from(cat, path, i) matches Some(k) ==> i <= k < cat.len() && cat[k].path == path,
        module_from(cat, path, i) is None ==> forall|k: int|
            i <= k < cat.len() ==> (#[trigger] cat[k]).path != path,
    decreases cat.len() - i,
{
    if i < cat.len() && cat[i].path != path {
        module_from_bounds(cat, path, i + 1);
    }
}

/// Adding modules keeps what a catalog holds: no module goes, each keeps its path
/// and its exports in their places.
pub proof fn merging_keeps(cat: Seq<ModuleSpecView>, ss: Seq<ModuleSpecView>, objects: bool, i: int)
    requires
        0 <= i < cat.len(),
    ensures
        merged_all(cat, ss, objects).len() >= cat.len(),
        merged_all(cat, ss, objects)[i].path == cat[i].path,
        cat[i].exports.is_prefix_of(merged_all(cat, ss, objects)[i].exports),
    decreases ss.len(),
{
    if ss.len() == 0 {
        assert(cat[i].exports.is_prefix_of(cat[i].exports));
    } else {
        merging_keeps(cat, ss.drop_last(), objects, i);
        let front = merged_all(cat, ss.drop_last(), objects);
        module_from_bounds(front, ss.last().path, 0);
        let a = front[i].exports;
        assert(a.is_prefix_of(a + ss.last().exports));
    }
}

/// Adding a module makes its path known.
pub proof fn merging_adds(cat: Seq<ModuleSpecView>, s: ModuleSpecView, objects: bool)
    ensures
        module_at(merged(cat, s, objects), s.path) matches Some(i) && s.exports.is_suffix_of(
            merged(cat, s, objects)[i].exports,
        ),
{
    let m = merged(cat, s, objects);
    module_from_bounds(cat, s.path, 0);
    module_from_bounds(m, s.path, 0);
    match module_at(cat, s.path) {
        Some(i) => {
            assert(m[i].path == s.path);
            first_stays(cat, m, s.path, 0);
            assert(s.exports.is_suffix_of(cat[i].exports + s.exports));
        },
        None => {
            assert(m[cat.len() as int].path == s.path);
            match module_at(m, s.path) {
                Some(k) => {
                    if k < cat.len() {
                        assert(cat[k].path == s.path);
                    }
                },
                None => {},
            }
            assert(s.exports.is_suffix_of(s.exports));
        },
    }
}

proof fn first_stays(a: Seq<ModuleSpecView>, b: Seq<ModuleSpecView>, path: Seq<Seq<char>>, i: int)
    requires
        0 <= i,
        a.len() == b.len(),
        forall|k: int| 0 <= k < a.len() ==> (#[trigger] a[k]).path == b[k].path,
    ensures
        module_from(a, path, i) == module_from(b, path, i),
    decreases a.len() - i,
{
    if i < a.len() && a[i].path != path {
        first_stays(a, b, path, i + 1);
    }
}

fn find_module(cat: &Vec<ModuleSpec>, s: &ModuleSpec) -> (r: Option<usize>)
    ensures
        match r {
            Some(i) => module_at(model::all(cat@), s@.path) == Some(i as int) && i < cat@.len(),
            None => module_at(model::all(cat@), s@.path) is None,
        },
{
    let ghost all = model::all(cat@);
    let mut i: usize = 0;
    while i < cat.len()
        invariant
            i <= cat@.len(),
            all == model::all(cat@),
            module_at(all, s@.path) == module_from(all, s@.path, i as int),
        decreases cat@.len() - i,
    {
        if same_path(&cat[i].path, &s.path) {
            return Some(i);
        }
        i += 1;
    }
    None
}

fn add_exports(have: &mut Vec<Export>, more: &Vec<Export>) -> (r: bool)
    ensures
        model::all(final(have)@) == model::all(old(have)@) + model::all(more@),
        r == exports_collide(model::all(old(have)@), model::all(more@)),
{
    let ghost start = model::all(have@);
    let ghost all = model::all(more@);
    let mut bad = false;
    let mut i: usize = 0;
    assert(start + all.take(0) =~= start);
    while i < more.len()
        invariant
            i <= more@.len(),
            all == model::all(more@),
            model::all(have@) == start + all.take(i as int),
            bad == exists|j: int|
                0 <= j < i && module::first_named(
                    start + all.take(j),
                    (#[trigger] all[j]).name,
                ) is Some,
        decreases more@.len() - i,
    {
        let taken = find_export(have, more[i].name.as_str()).is_some();
        if taken {
            assert(module::first_named(start + all.take(i as int), all[i as int].name) is Some);
            bad = true;
        }
        have.push(more[i].clone());
        assert(model::all(have@) =~= start + all.take(i + 1));
        i += 1;
    }
    assert(all.take(all.len() as int) =~= all);
    bad
}

fn knows_object(have: &Vec<ObjectExport>, qualified: &str) -> (r: bool)
    ensures
        r == has_object(model::all(have@), qualified@),
{
    let mut i: usize = 0;
    while i < have.len()
        invariant
            i <= have@.len(),
            forall|k: int| 0 <= k < i ==> (#[trigger] model::all(have@)[k]).qualified != qualified@,
        decreases have@.len() - i,
    {
        if str_eq(have[i].qualified.as_str(), qualified) {
            assert(model::all(have@)[i as int].qualified == qualified@);
            return true;
        }
        i += 1;
    }
    false
}

fn knows_union(have: &Vec<UnionExport>, qualified: &str) -> (r: bool)
    ensures
        r == has_union(model::all(have@), qualified@),
{
    let mut i: usize = 0;
    while i < have.len()
        invariant
            i <= have@.len(),
            forall|k: int| 0 <= k < i ==> (#[trigger] model::all(have@)[k]).qualified != qualified@,
        decreases have@.len() - i,
    {
        if str_eq(have[i].qualified.as_str(), qualified) {
            assert(model::all(have@)[i as int].qualified == qualified@);
            return true;
        }
        i += 1;
    }
    false
}

fn add_objects(have: &mut Vec<ObjectExport>, more: &Vec<ObjectExport>)
    ensures
        model::all(final(have)@) == with_objects(model::all(old(have)@), model::all(more@)),
{
    let ghost all = model::all(more@);
    let mut i: usize = 0;
    assert(all.take(0).len() == 0);
    while i < more.len()
        invariant
            i <= more@.len(),
            all == model::all(more@),
            model::all(have@) == with_objects(model::all(old(have)@), all.take(i as int)),
        decreases more@.len() - i,
    {
        assert(all.take(i + 1).drop_last() =~= all.take(i as int));
        assert(all.take(i + 1).last() == all[i as int]);
        if !knows_object(have, more[i].qualified.as_str()) {
            have.push(more[i].clone());
        }
        i += 1;
    }
    assert(all.take(all.len() as int) =~= all);
}

fn add_unions(have: &mut Vec<UnionExport>, more: &Vec<UnionExport>)
    ensures
        model::all(final(have)@) == with_unions(model::all(old(have)@), model::all(more@)),
{
    let ghost all = model::all(more@);
    let mut i: usize = 0;
    assert(all.take(0).len() == 0);
    while i < more.len()
        invariant
            i <= more@.len(),
            all == model::all(more@),
            model::all(have@) == with_unions(model::all(old(have)@), all.take(i as int)),
        decreases more@.len() - i,
    {
        assert(all.take(i + 1).drop_last() =~= all.take(i as int));
        assert(all.take(i + 1).last() == all[i as int]);
        if !knows_union(have, more[i].qualified.as_str()) {
            have.push(more[i].clone());
        }
        i += 1;
    }
    assert(all.take(all.len() as int) =~= all);
}

fn merge(cat: &mut Vec<ModuleSpec>, s: &ModuleSpec, objects: bool) -> (r: bool)
    ensures
        model::all(final(cat)@) == merged(model::all(old(cat)@), s@, objects),
        r == collides(model::all(old(cat)@), s@),
{
    match find_module(cat, s) {
        Some(i) => {
            let ghost before = model::all(cat@);
            let mut m = cat[i].clone();
            let bad = add_exports(&mut m.exports, &s.exports);
            if objects {
                add_objects(&mut m.objects, &s.objects);
            }
            add_unions(&mut m.unions, &s.unions);
            cat.set(i, m);
            assert(model::all(cat@) =~= merged(before, s@, objects));
            bad
        },
        None => {
            cat.push(s.clone());
            false
        },
    }
}

/// Adds modules to a catalog in order. Whether one of them has an export whose
/// name is taken.
pub fn merge_all(cat: &mut Vec<ModuleSpec>, ss: &Vec<ModuleSpec>, objects: bool) -> (r: bool)
    ensures
        model::all(final(cat)@) == merged_all(model::all(old(cat)@), model::all(ss@), objects),
        r == some_collide(model::all(old(cat)@), model::all(ss@), objects),
{
    let ghost all = model::all(ss@);
    let mut bad = false;
    let mut i: usize = 0;
    assert(all.take(0).len() == 0);
    while i < ss.len()
        invariant
            i <= ss@.len(),
            all == model::all(ss@),
            model::all(cat@) == merged_all(model::all(old(cat)@), all.take(i as int), objects),
            bad == some_collide(model::all(old(cat)@), all.take(i as int), objects),
        decreases ss@.len() - i,
    {
        assert(all.take(i + 1).drop_last() =~= all.take(i as int));
        assert(all.take(i + 1).last() == all[i as int]);
        let more = merge(cat, &ss[i], objects);
        bad = bad || more;
        i += 1;
    }
    assert(all.take(all.len() as int) =~= all);
    bad
}

impl Stdlib {
    /// Whether an export of the library has a name that is taken in a catalog.
    pub fn collides_with(&self, catalog: &Vec<ModuleSpec>) -> (r: bool)
        ensures
            r == some_collide(model::all(catalog@), self@.specs, false),
    {
        let mut copy = clone_vec(catalog);
        merge_all(&mut copy, &self.specs, false)
    }

    /// Adds the modules of the library to a catalog in which none of its exports
    /// has a name that is taken.
    pub fn extend_catalog(&self, catalog: &mut Vec<ModuleSpec>)
        requires
            !some_collide(model::all(old(catalog)@), self@.specs, false),
        ensures
            model::all(final(catalog)@) == merged_all(
                model::all(old(catalog)@),
                self@.specs,
                false,
            ),
    {
        let _ = merge_all(catalog, &self.specs, false);
    }
}

} // verus!
