use vstd::prelude::*;

use crate::model::{
    apis_matching, entries_on, insert_recipe_spec, upsert_assoc_spec, upsert_entries_spec,
    upsert_ingredient_spec, upsert_recipe_spec, AssocV, CatalogV, EntryV, RecipeV, RowV,
};

verus! {

/// The names of a sequence of (ingredient name, quantity) pairs, in order.
pub open spec fn entry_names(es: Seq<EntryV>) -> Seq<Seq<char>> {
    es.map_values(|e: EntryV| e.name)
}

/// The quantity of the last pair carrying `n`, or empty when none does.
pub open spec fn last_qty(es: Seq<EntryV>, n: Seq<char>) -> Seq<char>
    decreases es.len(),
{
    if es.len() == 0 {
        Seq::empty()
    } else if es.last().name == n {
        es.last().qty
    } else {
        last_qty(es.drop_last(), n)
    }
}

/// A recipe that matches the by-ingredient-set query stands in its answer.
proof fn lemma_apis_matching_contains(cat: CatalogV, rows: Seq<RowV>, wanted: Seq<Seq<char>>, p: int)
    requires
        0 <= p < rows.len(),
        cat.matches_query(rows[p].id, wanted),
    ensures
        apis_matching(cat, rows, wanted).contains(cat.api_for(rows[p].id)),
    decreases rows.len(),
{
    let res = apis_matching(cat, rows, wanted);
    if p == rows.len() - 1 {
        assert(rows.last() == rows[p]);
        assert(res[res.len() - 1] == cat.api_for(rows[p].id));
    } else {
        lemma_apis_matching_contains(cat, rows.drop_last(), wanted, p);
        let rest = apis_matching(cat, rows.drop_last(), wanted);
        assert(rows.drop_last()[p] == rows[p]);
        let idx = choose|i: int| 0 <= i < rest.len() && rest[i] == cat.api_for(rows[p].id);
        assert(res[idx] == cat.api_for(rows[p].id));
    }
}

/// Everything in the by-ingredient-set answer is the API shape of a matching
/// recipe row.
proof fn lemma_apis_matching_only(cat: CatalogV, rows: Seq<RowV>, wanted: Seq<Seq<char>>, a: RecipeV)
    requires
        apis_matching(cat, rows, wanted).contains(a),
    ensures
        exists|p: int|
            0 <= p < rows.len() && cat.matches_query((#[trigger] rows[p]).id, wanted) && a
                == cat.api_for(rows[p].id),
    decreases rows.len(),
{
    let res = apis_matching(cat, rows, wanted);
    let rest = apis_matching(cat, rows.drop_last(), wanted);
    if cat.matches_query(rows.last().id, wanted) {
        let i = choose|i: int| 0 <= i < res.len() && res[i] == a;
        if i == res.len() - 1 {
            assert(rows[rows.len() - 1] == rows.last());
            assert(cat.matches_query(rows[rows.len() - 1].id, wanted) && a == cat.api_for(
                rows[rows.len() - 1].id,
            ));
        } else {
            assert(rest[i] == a);
            lemma_apis_matching_only(cat, rows.drop_last(), wanted, a);
            let p = choose|p: int|
                0 <= p < rows.drop_last().len() && cat.matches_query(
                    (#[trigger] rows.drop_last()[p]).id,
                    wanted,
                ) && a == cat.api_for(rows.drop_last()[p].id);
            assert(rows[p] == rows.drop_last()[p]);
            assert(cat.matches_query(rows[p].id, wanted) && a == cat.api_for(rows[p].id));
        }
    } else {
        lemma_apis_matching_only(cat, rows.drop_last(), wanted, a);
        let p = choose|p: int|
            0 <= p < rows.drop_last().len() && cat.matches_query(
                (#[trigger] rows.drop_last()[p]).id,
                wanted,
            ) && a == cat.api_for(rows.drop_last()[p].id);
        assert(rows[p] == rows.drop_last()[p]);
        assert(cat.matches_query(rows[p].id, wanted) && a == cat.api_for(rows[p].id));
    }
}

/// Every joined pair of a recipe comes from one of its association rows.
proof fn lemma_entries_on_index(assocs: Seq<AssocV>, ings: Seq<RowV>, rid: u64, i: int)
    requires
        0 <= i < entries_on(assocs, ings, rid).len(),
    ensures
        exists|k: int|
            0 <= k < assocs.len() && (#[trigger] assocs[k]).recipe_id == rid
                && assocs[k].ingredient_id < ings.len() && entries_on(assocs, ings, rid)[i]
                == (EntryV { name: ings[assocs[k].ingredient_id as int].name, qty: assocs[k].qty }),
    decreases assocs.len(),
{
    let res = entries_on(assocs, ings, rid);
    let rest = entries_on(assocs.drop_last(), ings, rid);
    let a = assocs.last();
    if a.recipe_id == rid && a.ingredient_id < ings.len() {
        if i == res.len() - 1 {
            assert(assocs[assocs.len() - 1] == a);
            assert(res[i] == (EntryV {
                name: ings[a.ingredient_id as int].name,
                qty: a.qty,
            }));
        } else {
            lemma_entries_on_index(assocs.drop_last(), ings, rid, i);
            let k = choose|k: int|
                0 <= k < assocs.drop_last().len() && (#[trigger] assocs.drop_last()[k]).recipe_id
                    == rid && assocs.drop_last()[k].ingredient_id < ings.len() && rest[i]
                    == (EntryV {
                    name: ings[assocs.drop_last()[k].ingredient_id as int].name,
                    qty: assocs.drop_last()[k].qty,
                });
            assert(assocs[k] == assocs.drop_last()[k]);
            assert(res[i] == rest[i]);
        }
    } else {
        lemma_entries_on_index(assocs.drop_last(), ings, rid, i);
        let k = choose|k: int|
            0 <= k < assocs.drop_last().len() && (#[trigger] assocs.drop_last()[k]).recipe_id == rid
                && assocs.drop_last()[k].ingredient_id < ings.len() && rest[i] == (EntryV {
                name: ings[assocs.drop_last()[k].ingredient_id as int].name,
                qty: assocs.drop_last()[k].qty,
            });
        assert(assocs[k] == assocs.drop_last()[k]);
    }
}

/// Law: a recipe with at least one ingredient is always an answer to the
/// by-ingredient-set query on exactly its own ingredient names.
pub proof fn lemma_recipe_found_by_own_ingredients(cat: CatalogV, rid: u64)
    requires
        cat.wf(),
        rid < cat.recipes.len(),
        cat.entries_for(rid).len() > 0,
    ensures
        apis_matching(cat, cat.recipes, entry_names(cat.entries_for(rid))).contains(
            cat.api_for(rid),
        ),
{
    let wanted = entry_names(cat.entries_for(rid));
    assert forall|i: int|
        0 <= i < wanted.len() implies cat.recipe_has_named_ingredient(
        rid,
        #[trigger] wanted[i],
    ) by {
        lemma_entries_on_index(cat.assocs, cat.ingredients, rid, i);
        let k = choose|k: int|
            0 <= k < cat.assocs.len() && (#[trigger] cat.assocs[k]).recipe_id == rid
                && cat.assocs[k].ingredient_id < cat.ingredients.len() && entries_on(
                cat.assocs,
                cat.ingredients,
                rid,
            )[i] == (EntryV {
                name: cat.ingredients[cat.assocs[k].ingredient_id as int].name,
                qty: cat.assocs[k].qty,
            });
        assert(cat.assocs[k].recipe_id == rid && cat.assocs[k].ingredient_id
            < cat.ingredients.len() && cat.ingredients[cat.assocs[k].ingredient_id as int].name
            == wanted[i]);
    }
    assert(cat.matches_query(rid, wanted));
    assert(cat.recipes[rid as int].id == rid);
    lemma_apis_matching_contains(cat, cat.recipes, wanted, rid as int);
}

/// Law: adding a name that no stored ingredient carries to a request breaks
/// its all-or-nothing resolution.
pub proof fn lemma_unknown_name_breaks_resolution(
    cat: CatalogV,
    names: Seq<Seq<char>>,
    extra: Seq<char>,
)
    requires
        !cat.has_ingredient_named(extra),
    ensures
        !cat.all_resolved(names.push(extra)),
{
    assert(names.push(extra)[names.len() as int] == extra);
}

/// Law (superset tolerance): a recipe is an answer to the by-ingredient-set
/// query on any nonempty selection of names among its own ingredients.
pub proof fn lemma_superset_tolerance(cat: CatalogV, rid: u64, wanted: Seq<Seq<char>>)
    requires
        cat.wf(),
        rid < cat.recipes.len(),
        wanted.len() > 0,
        forall|i: int|
            0 <= i < wanted.len() ==> cat.recipe_has_named_ingredient(rid, #[trigger] wanted[i]),
    ensures
        apis_matching(cat, cat.recipes, wanted).contains(cat.api_for(rid)),
{
    assert(cat.recipes[rid as int].id == rid);
    lemma_apis_matching_contains(cat, cat.recipes, wanted, rid as int);
}

/// Law: a request naming an ingredient the recipe lacks excludes that recipe
/// from the by-ingredient-set query's answer.
pub proof fn lemma_missing_ingredient_excludes(
    cat: CatalogV,
    rid: u64,
    wanted: Seq<Seq<char>>,
    j: int,
)
    requires
        cat.wf(),
        rid < cat.recipes.len(),
        0 <= j < wanted.len(),
        !cat.recipe_has_named_ingredient(rid, wanted[j]),
    ensures
        !apis_matching(cat, cat.recipes, wanted).contains(cat.api_for(rid)),
{
    if apis_matching(cat, cat.recipes, wanted).contains(cat.api_for(rid)) {
        lemma_apis_matching_only(cat, cat.recipes, wanted, cat.api_for(rid));
        let p = choose|p: int|
            0 <= p < cat.recipes.len() && cat.matches_query(
                (#[trigger] cat.recipes[p]).id,
                wanted,
            ) && cat.api_for(rid) == cat.api_for(cat.recipes[p].id);
        assert(cat.recipes[p].id == p as u64);
        if p != rid as int {
            assert(cat.api_for(cat.recipes[p].id).name == cat.recipes[p].name);
            assert(cat.api_for(rid).name == cat.recipes[rid as int].name);
            assert(cat.recipes[p].name == cat.recipes[rid as int].name);
            assert(false);
        }
        assert(cat.matches_query(rid, wanted));
        assert(cat.recipe_has_named_ingredient(rid, wanted[j]));
        assert(false);
    }
}

/// Two stores with equal recipe tables name the same recipe ids.
proof fn lemma_recipe_id_agrees(a: CatalogV, b: CatalogV, n: Seq<char>)
    requires
        a.wf(),
        a.recipes == b.recipes,
        a.has_recipe_named(n),
    ensures
        b.has_recipe_named(n),
        b.recipe_id_named(n) == a.recipe_id_named(n),
{
    let p = choose|i: int| 0 <= i < a.recipes.len() && (#[trigger] a.recipes[i]).name == n;
    assert(b.recipes[p].name == n);
    let q = choose|i: int| 0 <= i < b.recipes.len() && (#[trigger] b.recipes[i]).name == n;
    if p != q {
        assert(a.recipes[p].name == a.recipes[q].name);
        assert(false);
    }
}

/// Two stores with equal ingredient tables name the same ingredient ids.
proof fn lemma_ingredient_id_agrees(a: CatalogV, b: CatalogV, n: Seq<char>)
    requires
        a.wf(),
        a.ingredients == b.ingredients,
        a.has_ingredient_named(n),
    ensures
        b.has_ingredient_named(n),
        b.ingredient_id_named(n) == a.ingredient_id_named(n),
{
    let p = choose|i: int| 0 <= i < a.ingredients.len() && (#[trigger] a.ingredients[i]).name == n;
    assert(b.ingredients[p].name == n);
    let q = choose|i: int| 0 <= i < b.ingredients.len() && (#[trigger] b.ingredients[i]).name == n;
    if p != q {
        assert(a.ingredients[p].name == a.ingredients[q].name);
        assert(false);
    }
}

/// The association row at position `p` is the one its (recipe, ingredient)
/// pair is resolved to.
proof fn lemma_assoc_at(cat: CatalogV, p: int)
    requires
        cat.wf(),
        0 <= p < cat.assocs.len(),
    ensures
        cat.has_assoc(cat.assocs[p].recipe_id, cat.assocs[p].ingredient_id),
        cat.assoc_index(cat.assocs[p].recipe_id, cat.assocs[p].ingredient_id) == p,
        cat.assoc_qty(cat.assocs[p].recipe_id, cat.assocs[p].ingredient_id) == cat.assocs[p].qty,
{
    let rid = cat.assocs[p].recipe_id;
    let iid = cat.assocs[p].ingredient_id;
    assert(cat.assocs[p].recipe_id == rid && cat.assocs[p].ingredient_id == iid);
    let k = choose|k: int|
        0 <= k < cat.assocs.len() && (#[trigger] cat.assocs[k]).recipe_id == rid
            && cat.assocs[k].ingredient_id == iid;
    if k != p {
        assert(false);
    }
}

/// What the recipe-row upsert does to the store.
proof fn lemma_upsert_recipe(cat: CatalogV, name: Seq<char>)
    requires
        cat.wf(),
        cat.recipes.len() < u64::MAX,
    ensures
        ({
            let c = upsert_recipe_spec(cat, name);
            &&& c.wf()
            &&& c.ingredients == cat.ingredients
            &&& c.assocs == cat.assocs
            &&& c.users == cat.users
            &&& c.has_recipe_named(name)
            &&& c.recipe_id_named(name) < c.recipes.len()
            &&& c.recipes[c.recipe_id_named(name) as int].name == name
            &&& cat.recipes.len() <= c.recipes.len()
            &&& forall|p: int|
                0 <= p < cat.recipes.len() ==> #[trigger] c.recipes[p] == cat.recipes[p]
            &&& (cat.has_recipe_named(name) ==> c.recipes == cat.recipes)
            &&& (!cat.has_recipe_named(name) ==> c.recipes == cat.recipes.push(
                RowV { id: cat.recipes.len() as u64, name },
            ) && c.recipe_id_named(name) == cat.recipes.len() as u64 && (forall|k: int|
                0 <= k < c.assocs.len() ==> (#[trigger] c.assocs[k]).recipe_id != c.recipe_id_named(
                    name,
                )))
        }),
{
    let c = upsert_recipe_spec(cat, name);
    if cat.has_recipe_named(name) {
        let q = choose|i: int| 0 <= i < cat.recipes.len() && (#[trigger] cat.recipes[i]).name == name;
        assert(cat.recipes[q].name == name);
    } else {
        assert forall|p: int|
            0 <= p < cat.recipes.len() implies (#[trigger] cat.recipes[p]).name != name by {
            if cat.recipes[p].name == name {
                assert(cat.has_recipe_named(name));
            }
        }
        assert(c.recipes[cat.recipes.len() as int].name == name);
        assert(c.has_recipe_named(name));
        let q = choose|i: int| 0 <= i < c.recipes.len() && (#[trigger] c.recipes[i]).name == name;
        if q != cat.recipes.len() as int {
            assert(c.recipes[q] == cat.recipes[q]);
            assert(false);
        }
        assert(c.wf());
    }
}

/// What the ingredient-row upsert does to the store.
proof fn lemma_upsert_ingredient(cat: CatalogV, name: Seq<char>)
    requires
        cat.wf(),
        cat.ingredients.len() < u64::MAX,
    ensures
        ({
            let c = upsert_ingredient_spec(cat, name);
            &&& c.wf()
            &&& c.recipes == cat.recipes
            &&& c.assocs == cat.assocs
            &&& c.users == cat.users
            &&& cat.ingredients.len() <= c.ingredients.len()
            &&& forall|p: int|
                0 <= p < cat.ingredients.len() ==> #[trigger] c.ingredients[p] == cat.ingredients[p]
            &&& c.has_ingredient_named(name)
            &&& c.ingredient_id_named(name) < c.ingredients.len()
            &&& c.ingredients[c.ingredient_id_named(name) as int].name == name
            &&& (cat.has_ingredient_named(name) ==> c.ingredients == cat.ingredients)
            &&& (!cat.has_ingredient_named(name) ==> c.ingredients == cat.ingredients.push(
                RowV { id: cat.ingredients.len() as u64, name },
            ))
            &&& forall|n: Seq<char>|
                #[trigger] cat.has_ingredient_named(n) ==> c.has_ingredient_named(n)
                    && c.ingredient_id_named(n) == cat.ingredient_id_named(n)
        }),
{
    let c = upsert_ingredient_spec(cat, name);
    if cat.has_ingredient_named(name) {
        let q = choose|i: int|
            0 <= i < cat.ingredients.len() && (#[trigger] cat.ingredients[i]).name == name;
        assert(cat.ingredients[q].name == name);
        assert forall|n: Seq<char>|
            #[trigger] cat.has_ingredient_named(n) implies c.has_ingredient_named(n)
            && c.ingredient_id_named(n) == cat.ingredient_id_named(n) by {}
    } else {
        assert forall|p: int|
            0 <= p < cat.ingredients.len() implies (#[trigger] cat.ingredients[p]).name != name by {
            if cat.ingredients[p].name == name {
                assert(cat.has_ingredient_named(name));
            }
        }
        assert(c.ingredients[cat.ingredients.len() as int].name == name);
        assert(c.has_ingredient_named(name));
        assert(c.wf());
        let q = choose|i: int|
            0 <= i < c.ingredients.len() && (#[trigger] c.ingredients[i]).name == name;
        if q != cat.ingredients.len() as int {
            assert(c.ingredients[q] == cat.ingredients[q]);
            assert(false);
        }
        assert forall|n: Seq<char>|
            #[trigger] cat.has_ingredient_named(n) implies c.has_ingredient_named(n)
            && c.ingredient_id_named(n) == cat.ingredient_id_named(n) by {
            let p = choose|i: int|
                0 <= i < cat.ingredients.len() && (#[trigger] cat.ingredients[i]).name == n;
            assert(c.ingredients[p].name == n);
            assert(c.has_ingredient_named(n));
            let q2 = choose|i: int|
                0 <= i < c.ingredients.len() && (#[trigger] c.ingredients[i]).name == n;
            if q2 != p {
                assert(c.ingredients[q2].name == c.ingredients[p].name);
                assert(false);
            }
        }
    }
}

/// What the association-row upsert does to the store.
proof fn lemma_upsert_assoc(cat: CatalogV, rid: u64, iid: u64, qty: Seq<char>)
    requires
        cat.wf(),
        rid < cat.recipes.len(),
        iid < cat.ingredients.len(),
    ensures
        ({
            let c = upsert_assoc_spec(cat, rid, iid, qty);
            &&& c.wf()
            &&& c.recipes == cat.recipes
            &&& c.ingredients == cat.ingredients
            &&& c.users == cat.users
            &&& c.has_assoc(rid, iid)
            &&& c.assoc_qty(rid, iid) == qty
            &&& cat.assocs.len() <= c.assocs.len()
            &&& (cat.has_assoc(rid, iid) ==> c.assocs.len() == cat.assocs.len())
            &&& (!cat.has_assoc(rid, iid) ==> c.assocs == cat.assocs.push(
                AssocV { recipe_id: rid, ingredient_id: iid, qty },
            ))
            &&& forall|p: int|
                0 <= p < cat.assocs.len() ==> ((#[trigger] c.assocs[p]).recipe_id
                    == cat.assocs[p].recipe_id && c.assocs[p].ingredient_id
                    == cat.assocs[p].ingredient_id)
            &&& forall|r2: u64, i2: u64| #[trigger] cat.has_assoc(r2, i2) ==> c.has_assoc(r2, i2)
            &&& forall|r2: u64, i2: u64|
                #[trigger] c.has_assoc(r2, i2) ==> cat.has_assoc(r2, i2) || (r2 == rid && i2 == iid)
            &&& forall|r2: u64, i2: u64|
                cat.has_assoc(r2, i2) && !(r2 == rid && i2 == iid) ==> #[trigger] c.assoc_qty(
                    r2,
                    i2,
                ) == cat.assoc_qty(r2, i2)
        }),
{
    let c = upsert_assoc_spec(cat, rid, iid, qty);
    let newrow = AssocV { recipe_id: rid, ingredient_id: iid, qty };
    if cat.has_assoc(rid, iid) {
        let k = cat.assoc_index(rid, iid);
        assert(0 <= k < cat.assocs.len() && cat.assocs[k].recipe_id == rid
            && cat.assocs[k].ingredient_id == iid);
        assert(c.assocs == cat.assocs.update(k, newrow));
        assert(c.assocs[k] == newrow);
        assert forall|p: int|
            0 <= p < cat.assocs.len() implies ((#[trigger] c.assocs[p]).recipe_id
            == cat.assocs[p].recipe_id && c.assocs[p].ingredient_id
            == cat.assocs[p].ingredient_id) by {
            if p != k {
                assert(c.assocs[p] == cat.assocs[p]);
            }
        }
        assert(c.wf());
        assert(c.has_assoc(rid, iid));
        lemma_assoc_at(c, k);
        assert(c.assoc_qty(rid, iid) == qty);
        assert forall|r2: u64, i2: u64|
            cat.has_assoc(r2, i2) && !(r2 == rid && i2 == iid) implies #[trigger] c.assoc_qty(
            r2,
            i2,
        ) == cat.assoc_qty(r2, i2) by {
            let p = cat.assoc_index(r2, i2);
            assert(0 <= p < cat.assocs.len() && cat.assocs[p].recipe_id == r2
                && cat.assocs[p].ingredient_id == i2);
            lemma_assoc_at(cat, p);
            assert(p != k);
            assert(c.assocs[p] == cat.assocs[p]);
            lemma_assoc_at(c, p);
        }
        assert forall|r2: u64, i2: u64| #[trigger] cat.has_assoc(r2, i2) implies c.has_assoc(
            r2,
            i2,
        ) by {
            let p = cat.assoc_index(r2, i2);
            assert(0 <= p < cat.assocs.len() && cat.assocs[p].recipe_id == r2
                && cat.assocs[p].ingredient_id == i2);
            assert(c.assocs[p].recipe_id == r2 && c.assocs[p].ingredient_id == i2);
        }
        assert forall|r2: u64, i2: u64| #[trigger] c.has_assoc(r2, i2) implies cat.has_assoc(
            r2,
            i2,
        ) || (r2 == rid && i2 == iid) by {
            let p = c.assoc_index(r2, i2);
            assert(0 <= p < c.assocs.len() && c.assocs[p].recipe_id == r2
                && c.assocs[p].ingredient_id == i2);
            if p != k {
                assert(cat.assocs[p].recipe_id == r2 && cat.assocs[p].ingredient_id == i2);
            }
        }
    } else {
        assert(c.assocs == cat.assocs.push(newrow));
        let k = cat.assocs.len() as int;
        assert(c.assocs[k] == newrow);
        assert forall|p: int|
            0 <= p < cat.assocs.len() implies #[trigger] c.assocs[p] == cat.assocs[p] by {}
        assert forall|p: int|
            0 <= p < cat.assocs.len() implies !((#[trigger] cat.assocs[p]).recipe_id == rid
            && cat.assocs[p].ingredient_id == iid) by {
            if cat.assocs[p].recipe_id == rid && cat.assocs[p].ingredient_id == iid {
                assert(cat.has_assoc(rid, iid));
            }
        }
        assert(c.wf());
        assert(c.has_assoc(rid, iid));
        lemma_assoc_at(c, k);
        assert forall|r2: u64, i2: u64|
            cat.has_assoc(r2, i2) && !(r2 == rid && i2 == iid) implies #[trigger] c.assoc_qty(
            r2,
            i2,
        ) == cat.assoc_qty(r2, i2) by {
            let p = cat.assoc_index(r2, i2);
            assert(0 <= p < cat.assocs.len() && cat.assocs[p].recipe_id == r2
                && cat.assocs[p].ingredient_id == i2);
            lemma_assoc_at(cat, p);
            assert(c.assocs[p] == cat.assocs[p]);
            lemma_assoc_at(c, p);
        }
        assert forall|r2: u64, i2: u64| #[trigger] cat.has_assoc(r2, i2) implies c.has_assoc(
            r2,
            i2,
        ) by {
            let p = cat.assoc_index(r2, i2);
            assert(0 <= p < cat.assocs.len() && cat.assocs[p].recipe_id == r2
                && cat.assocs[p].ingredient_id == i2);
            assert(c.assocs[p].recipe_id == r2 && c.assocs[p].ingredient_id == i2);
        }
        assert forall|r2: u64, i2: u64| #[trigger] c.has_assoc(r2, i2) implies cat.has_assoc(
            r2,
            i2,
        ) || (r2 == rid && i2 == iid) by {
            let p = c.assoc_index(r2, i2);
            assert(0 <= p < c.assocs.len() && c.assocs[p].recipe_id == r2
                && c.assocs[p].ingredient_id == i2);
            if p != k {
                assert(cat.assocs[p].recipe_id == r2 && cat.assocs[p].ingredient_id == i2);
            }
        }
    }
}

/// The id an existing name resolves to points at the row carrying that name.
proof fn lemma_ingredient_named_at(cat: CatalogV, n: Seq<char>)
    requires
        cat.wf(),
        cat.has_ingredient_named(n),
    ensures
        cat.ingredient_id_named(n) < cat.ingredients.len(),
        cat.ingredients[cat.ingredient_id_named(n) as int].name == n,
{
    let q = choose|i: int| 0 <= i < cat.ingredients.len() && (#[trigger] cat.ingredients[i]).name == n;
    assert(cat.ingredients[q].name == n);
}

/// What the upsert's per-entry phase establishes, run on any store: every
/// entry's ingredient row exists and its association with `rid` is written.
proof fn lemma_upsert_entries_establishes(cat: CatalogV, rid: u64, es: Seq<EntryV>)
    requires
        cat.wf(),
        rid < cat.recipes.len(),
        cat.ingredients.len() + es.len() <= u64::MAX,
    ensures
        ({
            let c = upsert_entries_spec(cat, rid, es);
            &&& c.wf()
            &&& c.recipes == cat.recipes
            &&& c.users == cat.users
            &&& cat.ingredients.len() <= c.ingredients.len()
            &&& c.ingredients.len() <= cat.ingredients.len() + es.len()
            &&& forall|p: int|
                0 <= p < cat.ingredients.len() ==> #[trigger] c.ingredients[p] == cat.ingredients[p]
            &&& forall|n: Seq<char>|
                #[trigger] cat.has_ingredient_named(n) ==> c.has_ingredient_named(n)
                    && c.ingredient_id_named(n) == cat.ingredient_id_named(n)
            &&& forall|r2: u64, i2: u64| #[trigger] cat.has_assoc(r2, i2) ==> c.has_assoc(r2, i2)
            &&& forall|i: int|
                0 <= i < es.len() ==> c.has_ingredient_named((#[trigger] es[i]).name)
                    && c.has_assoc(rid, c.ingredient_id_named(es[i].name))
        }),
    decreases es.len(),
{
    if es.len() > 0 {
        let es0 = es.drop_last();
        let e = es.last();
        lemma_upsert_entries_establishes(cat, rid, es0);
        let c0 = upsert_entries_spec(cat, rid, es0);
        lemma_upsert_ingredient(c0, e.name);
        let cb = upsert_ingredient_spec(c0, e.name);
        let iid = cb.ingredient_id_named(e.name);
        lemma_upsert_assoc(cb, rid, iid, e.qty);
        let c = upsert_assoc_spec(cb, rid, iid, e.qty);
        assert(c == upsert_entries_spec(cat, rid, es));
        assert forall|n: Seq<char>|
            #[trigger] cat.has_ingredient_named(n) implies c.has_ingredient_named(n)
            && c.ingredient_id_named(n) == cat.ingredient_id_named(n) by {
            assert(c0.has_ingredient_named(n) && c0.ingredient_id_named(n)
                == cat.ingredient_id_named(n));
            assert(cb.has_ingredient_named(n) && cb.ingredient_id_named(n)
                == c0.ingredient_id_named(n));
            lemma_ingredient_id_agrees(cb, c, n);
        }
        assert forall|r2: u64, i2: u64| #[trigger] cat.has_assoc(r2, i2) implies c.has_assoc(
            r2,
            i2,
        ) by {
            assert(c0.has_assoc(r2, i2));
            let k = choose|k: int|
                0 <= k < c0.assocs.len() && (#[trigger] c0.assocs[k]).recipe_id == r2
                    && c0.assocs[k].ingredient_id == i2;
            assert(cb.assocs[k].recipe_id == r2 && cb.assocs[k].ingredient_id == i2);
            assert(cb.has_assoc(r2, i2));
        }
        assert forall|i: int|
            0 <= i < es.len() implies c.has_ingredient_named((#[trigger] es[i]).name)
            && c.has_assoc(rid, c.ingredient_id_named(es[i].name)) by {
            if i < es0.len() {
                assert(es0[i] == es[i]);
                assert(c0.has_ingredient_named(es0[i].name));
                let i0 = c0.ingredient_id_named(es0[i].name);
                assert(c0.has_assoc(rid, i0));
                assert(cb.has_ingredient_named(es[i].name) && cb.ingredient_id_named(es[i].name)
                    == i0);
                let k = choose|k: int|
                    0 <= k < c0.assocs.len() && (#[trigger] c0.assocs[k]).recipe_id == rid
                        && c0.assocs[k].ingredient_id == i0;
                assert(cb.assocs[k].recipe_id == rid && cb.assocs[k].ingredient_id == i0);
                assert(cb.has_assoc(rid, i0));
                assert(c.has_assoc(rid, i0));
                lemma_ingredient_id_agrees(cb, c, es[i].name);
            } else {
                assert(es[i] == e);
                assert(cb.has_ingredient_named(e.name));
                lemma_ingredient_id_agrees(cb, c, e.name);
                assert(c.ingredient_id_named(e.name) == iid);
                assert(c.has_assoc(rid, iid));
            }
        }
    }
}

/// The upsert's per-entry phase, run on a store where every entry's
/// ingredient and association already exist: no row is added; quantities are
/// updated so that the last write per name wins.
proof fn lemma_upsert_entries_existing(cat: CatalogV, rid: u64, es: Seq<EntryV>)
    requires
        cat.wf(),
        rid < cat.recipes.len(),
        forall|i: int| 0 <= i < es.len() ==> cat.has_ingredient_named((#[trigger] es[i]).name),
        forall|i: int|
            0 <= i < es.len() ==> cat.has_assoc(
                rid,
                cat.ingredient_id_named((#[trigger] es[i]).name),
            ),
    ensures
        ({
            let c = upsert_entries_spec(cat, rid, es);
            &&& c.wf()
            &&& c.recipes == cat.recipes
            &&& c.ingredients == cat.ingredients
            &&& c.users == cat.users
            &&& c.assocs.len() == cat.assocs.len()
            &&& forall|n: Seq<char>|
                #[trigger] cat.has_ingredient_named(n) ==> c.has_ingredient_named(n)
                    && c.ingredient_id_named(n) == cat.ingredient_id_named(n)
            &&& forall|r2: u64, i2: u64| #[trigger] cat.has_assoc(r2, i2) ==> c.has_assoc(r2, i2)
            &&& forall|i: int|
                0 <= i < es.len() ==> c.assoc_qty(
                    rid,
                    cat.ingredient_id_named((#[trigger] es[i]).name),
                ) == last_qty(es, es[i].name)
        }),
    decreases es.len(),
{
    if es.len() > 0 {
        let es0 = es.drop_last();
        let e = es.last();
        assert forall|i: int|
            0 <= i < es0.len() implies cat.has_ingredient_named((#[trigger] es0[i]).name)
            && cat.has_assoc(rid, cat.ingredient_id_named(es0[i].name)) by {
            assert(es0[i] == es[i]);
        }
        lemma_upsert_entries_existing(cat, rid, es0);
        let c0 = upsert_entries_spec(cat, rid, es0);
        assert(cat.has_ingredient_named(e.name));
        assert(c0.has_ingredient_named(e.name));
        let cb = upsert_ingredient_spec(c0, e.name);
        assert(cb == c0);
        let iid = c0.ingredient_id_named(e.name);
        assert(iid == cat.ingredient_id_named(e.name));
        assert(cat.has_assoc(rid, iid));
        assert(c0.has_assoc(rid, iid));
        lemma_ingredient_named_at(cat, e.name);
        lemma_upsert_assoc(c0, rid, iid, e.qty);
        let c = upsert_assoc_spec(c0, rid, iid, e.qty);
        assert(c == upsert_entries_spec(cat, rid, es));
        assert forall|n: Seq<char>|
            #[trigger] cat.has_ingredient_named(n) implies c.has_ingredient_named(n)
            && c.ingredient_id_named(n) == cat.ingredient_id_named(n) by {
            assert(c0.has_ingredient_named(n) && c0.ingredient_id_named(n)
                == cat.ingredient_id_named(n));
            lemma_ingredient_id_agrees(c0, c, n);
        }
        assert forall|i: int|
            0 <= i < es.len() implies c.assoc_qty(
            rid,
            cat.ingredient_id_named((#[trigger] es[i]).name),
        ) == last_qty(es, es[i].name) by {
            let n = es[i].name;
            let iidn = cat.ingredient_id_named(n);
            if n == e.name {
                assert(c.assoc_qty(rid, iid) == e.qty);
                assert(last_qty(es, n) == e.qty);
            } else {
                lemma_ingredient_named_at(cat, n);
                lemma_ingredient_named_at(cat, e.name);
                assert(iidn != iid);
                assert(cat.has_assoc(rid, iidn));
                assert(c0.has_assoc(rid, iidn));
                assert(c.assoc_qty(rid, iidn) == c0.assoc_qty(rid, iidn));
                assert(i < es0.len());
                assert(es0[i] == es[i]);
                assert(c0.assoc_qty(rid, iidn) == last_qty(es0, n));
                assert(last_qty(es, n) == last_qty(es0, n));
            }
        }
    }
}

/// The upsert's per-entry phase, run for a recipe that no association row
/// references yet, with pairwise-distinct entry names: exactly one association
/// row is appended per entry, in order, carrying the entry's name and quantity.
proof fn lemma_upsert_entries_fresh(cat: CatalogV, rid: u64, es: Seq<EntryV>)
    requires
        cat.wf(),
        rid < cat.recipes.len(),
        cat.ingredients.len() + es.len() <= u64::MAX,
        forall|k: int| 0 <= k < cat.assocs.len() ==> (#[trigger] cat.assocs[k]).recipe_id != rid,
        forall|i: int, j: int|
            0 <= i < j < es.len() ==> (#[trigger] es[i]).name != (#[trigger] es[j]).name,
    ensures
        ({
            let c = upsert_entries_spec(cat, rid, es);
            &&& c.wf()
            &&& c.recipes == cat.recipes
            &&& c.users == cat.users
            &&& cat.ingredients.len() <= c.ingredients.len()
            &&& c.ingredients.len() <= cat.ingredients.len() + es.len()
            &&& forall|p: int|
                0 <= p < cat.ingredients.len() ==> #[trigger] c.ingredients[p] == cat.ingredients[p]
            &&& c.assocs.len() == cat.assocs.len() + es.len()
            &&& forall|p: int| 0 <= p < cat.assocs.len() ==> #[trigger] c.assocs[p] == cat.assocs[p]
            &&& forall|q: int|
                0 <= q < es.len() ==> ((#[trigger] c.assocs[cat.assocs.len() + q]).recipe_id == rid
                    && c.assocs[cat.assocs.len() + q].ingredient_id < c.ingredients.len()
                    && c.ingredients[c.assocs[cat.assocs.len() + q].ingredient_id as int].name
                    == es[q].name && c.assocs[cat.assocs.len() + q].qty == es[q].qty)
        }),
    decreases es.len(),
{
    if es.len() > 0 {
        let es0 = es.drop_last();
        let e = es.last();
        lemma_upsert_entries_fresh(cat, rid, es0);
        let c0 = upsert_entries_spec(cat, rid, es0);
        lemma_upsert_ingredient(c0, e.name);
        let cb = upsert_ingredient_spec(c0, e.name);
        let iid = cb.ingredient_id_named(e.name);
        assert(cb.ingredients[iid as int].name == e.name);
        // No association of `rid` with the entry's ingredient exists yet.
        assert(!cb.has_assoc(rid, iid)) by {
            if cb.has_assoc(rid, iid) {
                let k = choose|k: int|
                    0 <= k < cb.assocs.len() && (#[trigger] cb.assocs[k]).recipe_id == rid
                        && cb.assocs[k].ingredient_id == iid;
                assert(cb.assocs == c0.assocs);
                if k < cat.assocs.len() {
                    assert(c0.assocs[k] == cat.assocs[k]);
                    assert(false);
                } else {
                    let q = k - cat.assocs.len();
                    assert(c0.assocs[cat.assocs.len() + q].ingredient_id == iid);
                    assert(c0.ingredients[iid as int].name == es0[q].name);
                    assert(iid < c0.ingredients.len());
                    assert(cb.ingredients[iid as int] == c0.ingredients[iid as int]);
                    assert(es0[q] == es[q]);
                    assert(es[q].name == e.name);
                    assert(false);
                }
            }
        }
        lemma_upsert_assoc(cb, rid, iid, e.qty);
        let c = upsert_assoc_spec(cb, rid, iid, e.qty);
        assert(c == upsert_entries_spec(cat, rid, es));
        assert(c.assocs == cb.assocs.push(AssocV { recipe_id: rid, ingredient_id: iid, qty: e.qty }));
        assert forall|q: int|
            0 <= q < es.len() implies ((#[trigger] c.assocs[cat.assocs.len() + q]).recipe_id == rid
            && c.assocs[cat.assocs.len() + q].ingredient_id < c.ingredients.len()
            && c.ingredients[c.assocs[cat.assocs.len() + q].ingredient_id as int].name
            == es[q].name && c.assocs[cat.assocs.len() + q].qty == es[q].qty) by {
            if q < es0.len() {
                assert(c.assocs[cat.assocs.len() + q] == c0.assocs[cat.assocs.len() + q]);
                let oid = c0.assocs[cat.assocs.len() + q].ingredient_id;
                assert(oid < c0.ingredients.len());
                assert(cb.ingredients[oid as int] == c0.ingredients[oid as int]);
                assert(es0[q] == es[q]);
            } else {
                assert(cat.assocs.len() + q == c.assocs.len() - 1);
                assert(c.assocs[cat.assocs.len() + q] == (AssocV {
                    recipe_id: rid,
                    ingredient_id: iid,
                    qty: e.qty,
                }));
            }
        }
    }
}

/// A store with no association row for `rid` joins no pairs for it.
proof fn lemma_entries_on_none(assocs: Seq<AssocV>, ings: Seq<RowV>, rid: u64)
    requires
        forall|k: int| 0 <= k < assocs.len() ==> (#[trigger] assocs[k]).recipe_id != rid,
    ensures
        entries_on(assocs, ings, rid) == Seq::<EntryV>::empty(),
    decreases assocs.len(),
{
    if assocs.len() > 0 {
        assert(assocs[assocs.len() - 1] == assocs.last());
        lemma_entries_on_none(assocs.drop_last(), ings, rid);
    }
}

/// When the association rows for `rid` are exactly a suffix written from `es`,
/// the joined pairs for `rid` are exactly `es`.
proof fn lemma_entries_on_exact(
    assocs: Seq<AssocV>,
    ings: Seq<RowV>,
    rid: u64,
    base: int,
    es: Seq<EntryV>,
)
    requires
        0 <= base,
        base + es.len() == assocs.len(),
        forall|k: int| 0 <= k < base ==> (#[trigger] assocs[k]).recipe_id != rid,
        forall|q: int|
            0 <= q < es.len() ==> ((#[trigger] assocs[base + q]).recipe_id == rid && assocs[base
                + q].ingredient_id < ings.len() && ings[assocs[base + q].ingredient_id as int].name
                == es[q].name && assocs[base + q].qty == es[q].qty),
    ensures
        entries_on(assocs, ings, rid) == es,
    decreases es.len(),
{
    if es.len() == 0 {
        lemma_entries_on_none(assocs, ings, rid);
    } else {
        assert forall|q: int|
            0 <= q < es.drop_last().len() implies ((#[trigger] assocs.drop_last()[base
            + q]).recipe_id == rid && assocs.drop_last()[base + q].ingredient_id < ings.len()
            && ings[assocs.drop_last()[base + q].ingredient_id as int].name
            == es.drop_last()[q].name && assocs.drop_last()[base + q].qty
            == es.drop_last()[q].qty) by {
            assert(assocs.drop_last()[base + q] == assocs[base + q]);
            assert(es.drop_last()[q] == es[q]);
        }
        assert forall|k: int|
            0 <= k < base implies (#[trigger] assocs.drop_last()[k]).recipe_id != rid by {
            assert(assocs.drop_last()[k] == assocs[k]);
        }
        lemma_entries_on_exact(assocs.drop_last(), ings, rid, base, es.drop_last());
        let a = assocs.last();
        let qlast = es.len() - 1;
        assert((#[trigger] assocs[base + qlast]).recipe_id == rid && assocs[base
            + qlast].ingredient_id < ings.len() && ings[assocs[base + qlast].ingredient_id
            as int].name == es[qlast].name && assocs[base + qlast].qty == es[qlast].qty);
        assert(a == assocs[base + qlast]);
        assert(a.recipe_id == rid && a.ingredient_id < ings.len());
        assert(entries_on(assocs, ings, rid) =~= es);
    }
}

/// Law (idempotent upsert): writing a recipe twice with the same name and the
/// same ingredient names adds no recipe, ingredient, or association row the
/// second time, and the second call's quantities win, last write per name.
pub proof fn lemma_upsert_idempotent(cat: CatalogV, r1: RecipeV, r2: RecipeV)
    requires
        cat.wf(),
        r1.name == r2.name,
        entry_names(r1.ingredients) == entry_names(r2.ingredients),
        cat.recipes.len() < u64::MAX,
        cat.ingredients.len() + r1.ingredients.len() <= u64::MAX,
    ensures
        ({
            let c1 = insert_recipe_spec(cat, r1);
            let c2 = insert_recipe_spec(c1, r2);
            &&& c1.wf()
            &&& c2.wf()
            &&& c2.recipes == c1.recipes
            &&& c2.ingredients == c1.ingredients
            &&& c2.assocs.len() == c1.assocs.len()
            &&& forall|i: int|
                0 <= i < r2.ingredients.len() ==> c2.assoc_qty(
                    c1.recipe_id_named(r2.name),
                    c1.ingredient_id_named((#[trigger] r2.ingredients[i]).name),
                ) == last_qty(r2.ingredients, r2.ingredients[i].name)
        }),
{
    lemma_upsert_recipe(cat, r1.name);
    let ca = upsert_recipe_spec(cat, r1.name);
    let rid = ca.recipe_id_named(r1.name);
    lemma_upsert_entries_establishes(ca, rid, r1.ingredients);
    let c1 = upsert_entries_spec(ca, rid, r1.ingredients);
    assert(c1 == insert_recipe_spec(cat, r1));
    lemma_recipe_id_agrees(ca, c1, r1.name);
    assert(c1.recipe_id_named(r2.name) == rid);
    assert(upsert_recipe_spec(c1, r2.name) == c1);
    assert(r1.ingredients.len() == r2.ingredients.len()) by {
        assert(entry_names(r1.ingredients).len() == r1.ingredients.len());
        assert(entry_names(r2.ingredients).len() == r2.ingredients.len());
    }
    assert forall|i: int|
        0 <= i < r2.ingredients.len() implies c1.has_ingredient_named(
        (#[trigger] r2.ingredients[i]).name,
    ) && c1.has_assoc(rid, c1.ingredient_id_named(r2.ingredients[i].name)) by {
        assert(entry_names(r1.ingredients)[i] == r1.ingredients[i].name);
        assert(entry_names(r2.ingredients)[i] == r2.ingredients[i].name);
        assert(r1.ingredients[i].name == r2.ingredients[i].name);
        assert(c1.has_ingredient_named(r1.ingredients[i].name));
        assert(c1.has_assoc(rid, c1.ingredient_id_named(r1.ingredients[i].name)));
    }
    lemma_upsert_entries_existing(c1, rid, r2.ingredients);
    let c2 = upsert_entries_spec(c1, rid, r2.ingredients);
    assert(c2 == insert_recipe_spec(c1, r2));
}

/// Law (round trip): upserting a recipe under a fresh name and then reading it
/// back by name yields exactly the inserted (name, quantity) pairs — equal as
/// sequences here, hence as sets irrespective of input order.
pub proof fn lemma_insert_round_trip(cat: CatalogV, r: RecipeV)
    requires
        cat.wf(),
        !cat.has_recipe_named(r.name),
        forall|i: int, j: int|
            0 <= i < j < r.ingredients.len() ==> (#[trigger] r.ingredients[i]).name != (
            #[trigger] r.ingredients[j]).name,
        cat.recipes.len() < u64::MAX,
        cat.ingredients.len() + r.ingredients.len() <= u64::MAX,
    ensures
        ({
            let c = insert_recipe_spec(cat, r);
            &&& c.wf()
            &&& c.has_recipe_named(r.name)
            &&& c.entries_for(c.recipe_id_named(r.name)) == r.ingredients
            &&& c.entries_for(c.recipe_id_named(r.name)).to_set() == r.ingredients.to_set()
        }),
{
    lemma_upsert_recipe(cat, r.name);
    let ca = upsert_recipe_spec(cat, r.name);
    let rid = ca.recipe_id_named(r.name);
    lemma_upsert_entries_fresh(ca, rid, r.ingredients);
    let c = upsert_entries_spec(ca, rid, r.ingredients);
    assert(c == insert_recipe_spec(cat, r));
    lemma_recipe_id_agrees(ca, c, r.name);
    assert(c.recipe_id_named(r.name) == rid);
    assert forall|k: int| 0 <= k < ca.assocs.len() implies (#[trigger] c.assocs[k]).recipe_id
        != rid by {
        assert(c.assocs[k] == ca.assocs[k]);
    }
    lemma_entries_on_exact(c.assocs, c.ingredients, rid, ca.assocs.len() as int, r.ingredients);
    assert(c.entries_for(rid) == r.ingredients);
}

} // verus!
