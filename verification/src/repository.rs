use vstd::prelude::*;

use crate::errors::RepoError;
use crate::model::{
    apis_matching, apis_with_ingredient, entries_on, insert_recipe_spec, resolved_names, str_eq,
    strings_view, upsert_assoc_spec, upsert_entries_spec, upsert_entry_spec,
    upsert_ingredient_spec, upsert_recipe_spec, AssocV, Catalog, CatalogV, EntryV, IngredientInfo,
    IngredientRow, NewRecipe, Recipe, RecipeIngredientRow, RecipeRow, RowV,
};

verus! {

/// The query and mutation engine over the relational recipe store.
pub struct RecipeRepository;

/// The position of the recipe row carrying `name`, if any.
fn find_recipe_index(catalog: &Catalog, name: &str) -> (r: Option<usize>)
    requires
        catalog@.wf(),
    ensures
        match r {
            Some(i) => {
                &&& (i as int) < catalog@.recipes.len()
                &&& catalog@.recipes[i as int].name == name@
                &&& catalog@.has_recipe_named(name@)
                &&& catalog@.recipe_id_named(name@) == i as u64
            },
            None => !catalog@.has_recipe_named(name@),
        },
{
    let n = catalog.recipes.len();
    let mut i: usize = 0;
    while i < n
        invariant
            catalog@.wf(),
            catalog@.recipes.len() == n,
            n == catalog.recipes.len(),
            0 <= i <= n,
            forall|k: int| 0 <= k < i ==> (#[trigger] catalog@.recipes[k]).name != name@,
        decreases n - i,
    {
        if str_eq(catalog.recipes[i].name.as_str(), name) {
            proof {
                assert(catalog@.recipes[i as int].name == name@);
                let j = choose|j: int|
                    0 <= j < catalog@.recipes.len() && (#[trigger] catalog@.recipes[j]).name
                        == name@;
                if j != i as int {
                    assert(catalog@.recipes[j].name == catalog@.recipes[i as int].name);
                    assert(false);
                }
            }
            return Some(i);
        }
        i = i + 1;
    }
    proof {
        if catalog@.has_recipe_named(name@) {
            let j = choose|j: int|
                0 <= j < catalog@.recipes.len() && (#[trigger] catalog@.recipes[j]).name == name@;
            assert(catalog@.recipes[j].name != name@);
        }
    }
    None
}

/// The position of the ingredient row carrying `name`, if any.
fn find_ingredient_index(catalog: &Catalog, name: &str) -> (r: Option<usize>)
    requires
        catalog@.wf(),
    ensures
        match r {
            Some(i) => {
                &&& (i as int) < catalog@.ingredients.len()
                &&& catalog@.ingredients[i as int].name == name@
                &&& catalog@.has_ingredient_named(name@)
                &&& catalog@.ingredient_id_named(name@) == i as u64
            },
            None => !catalog@.has_ingredient_named(name@),
        },
{
    let n = catalog.ingredients.len();
    let mut i: usize = 0;
    while i < n
        invariant
            catalog@.wf(),
            catalog@.ingredients.len() == n,
            n == catalog.ingredients.len(),
            0 <= i <= n,
            forall|k: int| 0 <= k < i ==> (#[trigger] catalog@.ingredients[k]).name != name@,
        decreases n - i,
    {
        if str_eq(catalog.ingredients[i].name.as_str(), name) {
            proof {
                assert(catalog@.ingredients[i as int].name == name@);
                let j = choose|j: int|
                    0 <= j < catalog@.ingredients.len() && (#[trigger] catalog@.ingredients[j]).name
                        == name@;
                if j != i as int {
                    assert(catalog@.ingredients[j].name == catalog@.ingredients[i as int].name);
                    assert(false);
                }
            }
            return Some(i);
        }
        i = i + 1;
    }
    proof {
        if catalog@.has_ingredient_named(name@) {
            let j = choose|j: int|
                0 <= j < catalog@.ingredients.len() && (#[trigger] catalog@.ingredients[j]).name
                    == name@;
            assert(catalog@.ingredients[j].name != name@);
        }
    }
    None
}

/// Whether an association row links recipe `rid` and ingredient `iid`.
fn has_assoc_exec(catalog: &Catalog, rid: u64, iid: u64) -> (r: bool)
    ensures
        r == catalog@.has_assoc(rid, iid),
{
    let n = catalog.recipe_ingredients.len();
    let mut k: usize = 0;
    while k < n
        invariant
            catalog@.assocs.len() == n,
            n == catalog.recipe_ingredients.len(),
            0 <= k <= n,
            forall|m: int|
                0 <= m < k ==> !((#[trigger] catalog@.assocs[m]).recipe_id == rid
                    && catalog@.assocs[m].ingredient_id == iid),
        decreases n - k,
    {
        let a = &catalog.recipe_ingredients[k];
        if a.recipe_id == rid && a.ingredient_id == iid {
            proof {
                assert(catalog@.assocs[k as int].recipe_id == rid && catalog@.assocs[k as int].ingredient_id == iid);
            }
            return true;
        }
        k = k + 1;
    }
    proof {
        if catalog@.has_assoc(rid, iid) {
            let m = choose|m: int|
                0 <= m < catalog@.assocs.len() && (#[trigger] catalog@.assocs[m]).recipe_id == rid
                    && catalog@.assocs[m].ingredient_id == iid;
            assert(!(catalog@.assocs[m].recipe_id == rid && catalog@.assocs[m].ingredient_id
                == iid));
        }
    }
    false
}

/// The inner join of recipe `rid`'s association rows with the ingredient
/// table, mapped to API-facing (name, quantity) pairs, in association order.
fn collect_entries(catalog: &Catalog, rid: u64) -> (r: Vec<IngredientInfo>)
    requires
        catalog@.wf(),
    ensures
        r@.map_values(|e: IngredientInfo| e@) == catalog@.entries_for(rid),
{
    let n = catalog.recipe_ingredients.len();
    let mut out: Vec<IngredientInfo> = Vec::new();
    let mut k: usize = 0;
    proof {
        assert(out@.map_values(|e: IngredientInfo| e@) =~= entries_on(
            catalog@.assocs.take(0),
            catalog@.ingredients,
            rid,
        ));
    }
    while k < n
        invariant
            catalog@.wf(),
            catalog@.assocs.len() == n,
            n == catalog.recipe_ingredients.len(),
            0 <= k <= n,
            out@.map_values(|e: IngredientInfo| e@) == entries_on(
                catalog@.assocs.take(k as int),
                catalog@.ingredients,
                rid,
            ),
        decreases n - k,
    {
        let ghost prev = out@.map_values(|e: IngredientInfo| e@);
        let a = &catalog.recipe_ingredients[k];
        proof {
            assert(catalog@.assocs.take(k + 1).drop_last() =~= catalog@.assocs.take(k as int));
            assert(catalog@.assocs.take(k + 1).last() == catalog@.assocs[k as int]);
        }
        if a.recipe_id == rid {
            let ilen = catalog.ingredients.len();
            proof {
                assert(catalog@.assocs[k as int] == a@);
                assert(catalog@.ingredients.len() == ilen);
                assert(a.ingredient_id < ilen);
            }
            let idx: usize = a.ingredient_id as usize;
            let ing = &catalog.ingredients[idx];
            let entry = IngredientInfo { name: ing.name.clone(), qty: a.qty.clone() };
            proof {
                assert(ing@ == catalog@.ingredients[a.ingredient_id as int]);
                assert(entry@ == EntryV {
                    name: catalog@.ingredients[a.ingredient_id as int].name,
                    qty: catalog@.assocs[k as int].qty,
                });
            }
            out.push(entry);
            proof {
                assert(out@.map_values(|e: IngredientInfo| e@) =~= prev.push(entry@));
            }
        }
        k = k + 1;
    }
    proof {
        assert(catalog@.assocs.take(n as int) =~= catalog@.assocs);
    }
    out
}

impl RecipeRepository {
    /// Look up one recipe by exact name. When the name exists, the result is
    /// the API-facing recipe with its complete joined ingredient list; when it
    /// does not, the lookup fails with NotFound carrying the queried name.
    pub fn get_recipe_by_name(catalog: &Catalog, recipe_name: &str) -> (r: Result<
        Option<Recipe>,
        RepoError,
    >)
        requires
            catalog@.wf(),
        ensures
            catalog@.has_recipe_named(recipe_name@) ==> (r matches Ok(Some(rec)) && rec@
                == catalog@.api_for(catalog@.recipe_id_named(recipe_name@))),
            !catalog@.has_recipe_named(recipe_name@) ==> (r matches Err(
                RepoError::NotFound { name },
            ) && name@ == recipe_name@),
    {
        match find_recipe_index(catalog, recipe_name) {
            Some(i) => {
                let ings = collect_entries(catalog, catalog.recipes[i].id);
                let rec = Recipe { name: catalog.recipes[i].name.clone(), ingredients: ings };
                proof {
                    assert(catalog@.recipes[i as int].id == i as u64);
                    assert(rec@ =~= catalog@.api_for(catalog@.recipe_id_named(recipe_name@)));
                }
                Ok(Some(rec))
            },
            None => Err(RepoError::NotFound { name: recipe_name.to_owned() }),
        }
    }

    /// Look up every recipe that uses the named ingredient. Each returned
    /// recipe carries its complete ingredient list, not merely the match; an
    /// unknown ingredient name fails with NotFound carrying it.
    pub fn get_recipes_by_ingredient_name(catalog: &Catalog, ingredient_name: &str) -> (r: Result<
        Vec<Recipe>,
        RepoError,
    >)
        requires
            catalog@.wf(),
        ensures
            catalog@.has_ingredient_named(ingredient_name@) ==> (r matches Ok(v)
                && v@.map_values(|rec: Recipe| rec@) == apis_with_ingredient(
                catalog@,
                catalog@.recipes,
                catalog@.ingredient_id_named(ingredient_name@),
            )),
            !catalog@.has_ingredient_named(ingredient_name@) ==> (r matches Err(
                RepoError::NotFound { name },
            ) && name@ == ingredient_name@),
    {
        let iid_idx = match find_ingredient_index(catalog, ingredient_name) {
            Some(i) => i,
            None => {
                return Err(RepoError::NotFound { name: ingredient_name.to_owned() });
            },
        };
        let iid = catalog.ingredients[iid_idx].id;
        proof {
            assert(iid == catalog@.ingredient_id_named(ingredient_name@));
        }
        let n = catalog.recipes.len();
        let mut out: Vec<Recipe> = Vec::new();
        let mut j: usize = 0;
        proof {
            assert(out@.map_values(|rec: Recipe| rec@) =~= apis_with_ingredient(
                catalog@,
                catalog@.recipes.take(0),
                iid,
            ));
        }
        while j < n
            invariant
                catalog@.wf(),
                catalog@.recipes.len() == n,
                n == catalog.recipes.len(),
                0 <= j <= n,
                iid == catalog@.ingredient_id_named(ingredient_name@),
                out@.map_values(|rec: Recipe| rec@) == apis_with_ingredient(
                    catalog@,
                    catalog@.recipes.take(j as int),
                    iid,
                ),
            decreases n - j,
        {
            let ghost prev = out@.map_values(|rec: Recipe| rec@);
            let row = &catalog.recipes[j];
            proof {
                assert(catalog@.recipes.take(j + 1).drop_last() =~= catalog@.recipes.take(j as int));
                assert(catalog@.recipes.take(j + 1).last() == catalog@.recipes[j as int]);
                assert(catalog@.recipes[j as int].id == j as u64);
            }
            if has_assoc_exec(catalog, row.id, iid) {
                let ings = collect_entries(catalog, row.id);
                let rec = Recipe { name: row.name.clone(), ingredients: ings };
                proof {
                    assert(rec@ =~= catalog@.api_for(catalog@.recipes[j as int].id));
                }
                out.push(rec);
                proof {
                    assert(out@.map_values(|rec: Recipe| rec@) =~= prev.push(
                        catalog@.api_for(catalog@.recipes[j as int].id),
                    ));
                }
            }
            j = j + 1;
        }
        proof {
            assert(catalog@.recipes.take(n as int) =~= catalog@.recipes);
        }
        Ok(out)
    }
}

/// The position of the association row for (rid, iid), if any.
fn find_assoc_index(catalog: &Catalog, rid: u64, iid: u64) -> (r: Option<usize>)
    requires
        catalog@.wf(),
    ensures
        match r {
            Some(k) => {
                &&& (k as int) < catalog@.assocs.len()
                &&& catalog@.assocs[k as int].recipe_id == rid
                &&& catalog@.assocs[k as int].ingredient_id == iid
                &&& catalog@.has_assoc(rid, iid)
                &&& catalog@.assoc_index(rid, iid) == k as int
            },
            None => !catalog@.has_assoc(rid, iid),
        },
{
    let n = catalog.recipe_ingredients.len();
    let mut k: usize = 0;
    while k < n
        invariant
            catalog@.wf(),
            catalog@.assocs.len() == n,
            n == catalog.recipe_ingredients.len(),
            0 <= k <= n,
            forall|m: int|
                0 <= m < k ==> !((#[trigger] catalog@.assocs[m]).recipe_id == rid
                    && catalog@.assocs[m].ingredient_id == iid),
        decreases n - k,
    {
        let a = &catalog.recipe_ingredients[k];
        if a.recipe_id == rid && a.ingredient_id == iid {
            proof {
                assert(catalog@.assocs[k as int].recipe_id == rid && catalog@.assocs[k
                    as int].ingredient_id == iid);
                let l = choose|l: int|
                    0 <= l < catalog@.assocs.len() && (#[trigger] catalog@.assocs[l]).recipe_id
                        == rid && catalog@.assocs[l].ingredient_id == iid;
                if l != k as int {
                    assert(catalog@.assocs[l].recipe_id == catalog@.assocs[k as int].recipe_id
                        && catalog@.assocs[l].ingredient_id == catalog@.assocs[k
                        as int].ingredient_id);
                    assert(false);
                }
            }
            return Some(k);
        }
        k = k + 1;
    }
    proof {
        if catalog@.has_assoc(rid, iid) {
            let m = choose|m: int|
                0 <= m < catalog@.assocs.len() && (#[trigger] catalog@.assocs[m]).recipe_id == rid
                    && catalog@.assocs[m].ingredient_id == iid;
            assert(!(catalog@.assocs[m].recipe_id == rid && catalog@.assocs[m].ingredient_id
                == iid));
        }
    }
    None
}

/// Whether one of the strings has the character view of `s`.
fn contains_str(names: &Vec<String>, s: &str) -> (r: bool)
    ensures
        r == strings_view(names@).contains(s@),
{
    let n = names.len();
    let mut i: usize = 0;
    while i < n
        invariant
            n == names.len(),
            0 <= i <= n,
            forall|k: int| 0 <= k < i ==> strings_view(names@)[k] != s@,
        decreases n - i,
    {
        if str_eq(names[i].as_str(), s) {
            proof {
                assert(strings_view(names@)[i as int] == s@);
            }
            return true;
        }
        i = i + 1;
    }
    proof {
        if strings_view(names@).contains(s@) {
            let j = choose|j: int|
                0 <= j < strings_view(names@).len() && strings_view(names@)[j] == s@;
            assert(strings_view(names@)[j] != s@);
        }
    }
    false
}

/// Whether recipe `rid` has an association with an ingredient named `name`.
fn recipe_has_ingredient_exec(catalog: &Catalog, rid: u64, name: &str) -> (r: bool)
    requires
        catalog@.wf(),
    ensures
        r == catalog@.recipe_has_named_ingredient(rid, name@),
{
    let n = catalog.recipe_ingredients.len();
    let mut k: usize = 0;
    while k < n
        invariant
            catalog@.wf(),
            catalog@.assocs.len() == n,
            n == catalog.recipe_ingredients.len(),
            0 <= k <= n,
            forall|m: int|
                0 <= m < k ==> !((#[trigger] catalog@.assocs[m]).recipe_id == rid
                    && catalog@.assocs[m].ingredient_id < catalog@.ingredients.len()
                    && catalog@.ingredients[catalog@.assocs[m].ingredient_id as int].name
                    == name@),
        decreases n - k,
    {
        let a = &catalog.recipe_ingredients[k];
        if a.recipe_id == rid {
            let ilen = catalog.ingredients.len();
            proof {
                assert(catalog@.assocs[k as int] == a@);
                assert(catalog@.ingredients.len() == ilen);
                assert(a.ingredient_id < ilen);
            }
            let idx: usize = a.ingredient_id as usize;
            if str_eq(catalog.ingredients[idx].name.as_str(), name) {
                proof {
                    assert(catalog@.assocs[k as int].recipe_id == rid && catalog@.assocs[k
                        as int].ingredient_id < catalog@.ingredients.len()
                        && catalog@.ingredients[catalog@.assocs[k as int].ingredient_id
                        as int].name == name@);
                }
                return true;
            }
        }
        k = k + 1;
    }
    proof {
        if catalog@.recipe_has_named_ingredient(rid, name@) {
            let m = choose|m: int|
                0 <= m < catalog@.assocs.len() && (#[trigger] catalog@.assocs[m]).recipe_id == rid
                    && catalog@.assocs[m].ingredient_id < catalog@.ingredients.len()
                    && catalog@.ingredients[catalog@.assocs[m].ingredient_id as int].name == name@;
            assert(!(catalog@.assocs[m].recipe_id == rid && catalog@.assocs[m].ingredient_id
                < catalog@.ingredients.len()
                && catalog@.ingredients[catalog@.assocs[m].ingredient_id as int].name == name@));
        }
    }
    false
}

/// Whether recipe `rid`'s ingredient names cover every one of the given names.
fn has_all_ingredients_exec(catalog: &Catalog, rid: u64, names: &Vec<String>) -> (r: bool)
    requires
        catalog@.wf(),
    ensures
        r == catalog@.has_all_named_ingredients(rid, strings_view(names@)),
{
    let n = names.len();
    let mut i: usize = 0;
    while i < n
        invariant
            catalog@.wf(),
            n == names.len(),
            0 <= i <= n,
            forall|k: int|
                0 <= k < i ==> catalog@.recipe_has_named_ingredient(
                    rid,
                    #[trigger] strings_view(names@)[k],
                ),
        decreases n - i,
    {
        if !recipe_has_ingredient_exec(catalog, rid, names[i].as_str()) {
            proof {
                assert(strings_view(names@)[i as int] == names@[i as int]@);
                assert(!catalog@.recipe_has_named_ingredient(rid, strings_view(names@)[i as int]));
            }
            return false;
        }
        proof {
            assert(strings_view(names@)[i as int] == names@[i as int]@);
        }
        i = i + 1;
    }
    true
}

/// With no wanted name, the by-ingredient-set query matches no recipe.
proof fn lemma_apis_matching_empty(cat: CatalogV, rows: Seq<RowV>, wanted: Seq<Seq<char>>)
    requires
        wanted.len() == 0,
    ensures
        apis_matching(cat, rows, wanted) == Seq::<crate::model::RecipeV>::empty(),
    decreases rows.len(),
{
    if rows.len() > 0 {
        lemma_apis_matching_empty(cat, rows.drop_last(), wanted);
    }
}

impl RecipeRepository {
    /// Look up every recipe whose ingredient set is a superset of the given
    /// names. Name resolution is all-or-nothing: when some requested name does
    /// not exist, the query fails with PartialResolution carrying the requested
    /// names and those that were found. The empty request matches no recipes.
    pub fn get_recipes_by_ingredient_names(catalog: &Catalog, ingredient_names: &Vec<String>) -> (r:
        Result<Vec<Recipe>, RepoError>)
        requires
            catalog@.wf(),
        ensures
            catalog@.all_resolved(strings_view(ingredient_names@)) ==> (r matches Ok(v)
                && v@.map_values(|rec: Recipe| rec@) == apis_matching(
                catalog@,
                catalog@.recipes,
                strings_view(ingredient_names@),
            )),
            !catalog@.all_resolved(strings_view(ingredient_names@)) ==> (r matches Err(
                RepoError::PartialResolution { wanted, found },
            ) && strings_view(wanted@) == strings_view(ingredient_names@) && strings_view(found@)
                == resolved_names(catalog@.ingredients, strings_view(ingredient_names@))),
    {
        let n = ingredient_names.len();
        // Step 1: resolve every requested name; all-or-nothing.
        let mut i: usize = 0;
        let mut missing: bool = false;
        while i < n && !missing
            invariant
                catalog@.wf(),
                n == ingredient_names.len(),
                0 <= i <= n,
                !missing ==> forall|k: int|
                    0 <= k < i ==> catalog@.has_ingredient_named(
                        #[trigger] strings_view(ingredient_names@)[k],
                    ),
                missing ==> !catalog@.all_resolved(strings_view(ingredient_names@)),
            decreases n - i,
        {
            match find_ingredient_index(catalog, ingredient_names[i].as_str()) {
                Some(_) => {
                    proof {
                        assert(strings_view(ingredient_names@)[i as int] == ingredient_names@[i
                            as int]@);
                    }
                },
                None => {
                    proof {
                        assert(strings_view(ingredient_names@)[i as int] == ingredient_names@[i
                            as int]@);
                        assert(!catalog@.has_ingredient_named(
                            strings_view(ingredient_names@)[i as int],
                        ));
                    }
                    missing = true;
                },
            }
            i = i + 1;
        }
        if missing {
            // Build the requested-vs-found payload.
            let mut wanted: Vec<String> = Vec::new();
            let mut w: usize = 0;
            while w < n
                invariant
                    n == ingredient_names.len(),
                    0 <= w <= n,
                    wanted@.len() == w,
                    forall|k: int| 0 <= k < w ==> (#[trigger] wanted@[k])@ == ingredient_names@[k]@,
                decreases n - w,
            {
                wanted.push(ingredient_names[w].clone());
                w = w + 1;
            }
            proof {
                assert(strings_view(wanted@) =~= strings_view(ingredient_names@));
            }
            let mut found: Vec<String> = Vec::new();
            let inglen = catalog.ingredients.len();
            let mut k: usize = 0;
            proof {
                assert(strings_view(found@) =~= resolved_names(
                    catalog@.ingredients.take(0),
                    strings_view(ingredient_names@),
                ));
            }
            while k < inglen
                invariant
                    catalog@.wf(),
                    catalog@.ingredients.len() == inglen,
                    inglen == catalog.ingredients.len(),
                    n == ingredient_names.len(),
                    0 <= k <= inglen,
                    strings_view(found@) == resolved_names(
                        catalog@.ingredients.take(k as int),
                        strings_view(ingredient_names@),
                    ),
                decreases inglen - k,
            {
                let ghost prevf = strings_view(found@);
                proof {
                    assert(catalog@.ingredients.take(k + 1).drop_last() =~= catalog@.ingredients.take(
                        k as int,
                    ));
                    assert(catalog@.ingredients.take(k + 1).last() == catalog@.ingredients[k as int]);
                }
                if contains_str(ingredient_names, catalog.ingredients[k].name.as_str()) {
                    found.push(catalog.ingredients[k].name.clone());
                    proof {
                        assert(strings_view(found@) =~= prevf.push(
                            catalog@.ingredients[k as int].name,
                        ));
                    }
                }
                k = k + 1;
            }
            proof {
                assert(catalog@.ingredients.take(inglen as int) =~= catalog@.ingredients);
            }
            return Err(RepoError::PartialResolution { wanted, found });
        }
        // Every name resolved.
        proof {
            assert(catalog@.all_resolved(strings_view(ingredient_names@)));
        }
        if n == 0 {
            let out: Vec<Recipe> = Vec::new();
            proof {
                lemma_apis_matching_empty(
                    catalog@,
                    catalog@.recipes,
                    strings_view(ingredient_names@),
                );
                assert(out@.map_values(|rec: Recipe| rec@) =~= apis_matching(
                    catalog@,
                    catalog@.recipes,
                    strings_view(ingredient_names@),
                ));
            }
            return Ok(out);
        }
        // Steps 2-4: keep the recipes whose ingredient names cover every
        // requested name, each with its complete ingredient list.
        let rlen = catalog.recipes.len();
        let mut out: Vec<Recipe> = Vec::new();
        let mut j: usize = 0;
        proof {
            assert(out@.map_values(|rec: Recipe| rec@) =~= apis_matching(
                catalog@,
                catalog@.recipes.take(0),
                strings_view(ingredient_names@),
            ));
        }
        while j < rlen
            invariant
                catalog@.wf(),
                catalog@.recipes.len() == rlen,
                rlen == catalog.recipes.len(),
                n == ingredient_names.len(),
                n > 0,
                0 <= j <= rlen,
                out@.map_values(|rec: Recipe| rec@) == apis_matching(
                    catalog@,
                    catalog@.recipes.take(j as int),
                    strings_view(ingredient_names@),
                ),
            decreases rlen - j,
        {
            let ghost prev = out@.map_values(|rec: Recipe| rec@);
            let row = &catalog.recipes[j];
            proof {
                assert(catalog@.recipes.take(j + 1).drop_last() =~= catalog@.recipes.take(j as int));
                assert(catalog@.recipes.take(j + 1).last() == catalog@.recipes[j as int]);
                assert(catalog@.recipes[j as int].id == j as u64);
                assert(strings_view(ingredient_names@).len() == n);
            }
            if has_all_ingredients_exec(catalog, row.id, ingredient_names) {
                let ings = collect_entries(catalog, row.id);
                let rec = Recipe { name: row.name.clone(), ingredients: ings };
                proof {
                    assert(rec@ =~= catalog@.api_for(catalog@.recipes[j as int].id));
                }
                out.push(rec);
                proof {
                    assert(out@.map_values(|rec: Recipe| rec@) =~= prev.push(
                        catalog@.api_for(catalog@.recipes[j as int].id),
                    ));
                }
            }
            j = j + 1;
        }
        proof {
            assert(catalog@.recipes.take(rlen as int) =~= catalog@.recipes);
        }
        Ok(out)
    }
}

impl RecipeRepository {
    /// The all-or-nothing upsert: write the recipe row by name, every named
    /// ingredient row, and one association row per ingredient carrying its
    /// quantity, resolving every name conflict to the existing row's id and
    /// updating quantities in place. The whole effect on the store is
    /// `insert_recipe_spec`; the returned recipe echoes the request.
    pub fn insert_recipe(catalog: &mut Catalog, recipe: NewRecipe) -> (r: Result<Recipe, RepoError>)
        requires
            old(catalog)@.wf(),
        ensures
            final(catalog)@ == insert_recipe_spec(old(catalog)@, recipe@),
            final(catalog)@.wf(),
            r matches Ok(rec) && rec@ == recipe@,
    {
        let ghost cat0 = catalog@;
        // Step 1: upsert the recipe row by name.
        let rid_idx: usize = match find_recipe_index(catalog, recipe.name.as_str()) {
            Some(i) => i,
            None => {
                let i = catalog.recipes.len();
                catalog.recipes.push(RecipeRow { id: i as u64, name: recipe.name.clone() });
                let newlen = catalog.recipes.len();
                proof {
                    assert(newlen == catalog@.recipes.len());
                    let newrow = RowV { id: cat0.recipes.len() as u64, name: recipe.name@ };
                    assert(catalog@.recipes =~= cat0.recipes.push(newrow));
                    assert(catalog@.ingredients =~= cat0.ingredients);
                    assert(catalog@.assocs =~= cat0.assocs);
                    assert(catalog@.users =~= cat0.users);
                    assert forall|p: int|
                        0 <= p < cat0.recipes.len() implies (#[trigger] cat0.recipes[p]).name
                        != recipe.name@ by {
                        if cat0.recipes[p].name == recipe.name@ {
                            assert(cat0.has_recipe_named(recipe.name@));
                        }
                    }
                    assert(catalog@.recipes.len() <= u64::MAX);
                    assert(catalog@.wf());
                    assert(catalog@.recipes[i as int].name == recipe.name@);
                    assert(catalog@.has_recipe_named(recipe.name@));
                }
                i
            },
        };
        let rid: u64 = catalog.recipes[rid_idx].id;
        let ghost cat1 = upsert_recipe_spec(cat0, recipe@.name);
        proof {
            assert(catalog@ =~= cat1);
            assert(catalog@.recipes[rid_idx as int].id == rid_idx as u64);
            let j = choose|j: int|
                0 <= j < catalog@.recipes.len() && (#[trigger] catalog@.recipes[j]).name
                    == recipe.name@;
            if j != rid_idx as int {
                assert(catalog@.recipes[j].name == catalog@.recipes[rid_idx as int].name);
                assert(false);
            }
            assert(rid == cat1.recipe_id_named(recipe@.name));
            assert(rid < cat1.recipes.len());
        }
        // Steps 2 and 3: upsert every named ingredient and its association.
        let m = recipe.ingredients.len();
        let mut i: usize = 0;
        proof {
            assert(recipe@.ingredients.take(0) =~= Seq::<EntryV>::empty());
            assert(catalog@ == upsert_entries_spec(cat1, rid, recipe@.ingredients.take(0)));
        }
        while i < m
            invariant
                m == recipe.ingredients.len(),
                recipe@.ingredients.len() == m,
                0 <= i <= m,
                rid < catalog@.recipes.len(),
                catalog@ == upsert_entries_spec(cat1, rid, recipe@.ingredients.take(i as int)),
                catalog@.wf(),
            decreases m - i,
        {
            let ghost cat_a = catalog@;
            let e = &recipe.ingredients[i];
            proof {
                assert(recipe@.ingredients.take(i + 1).drop_last() =~= recipe@.ingredients.take(
                    i as int,
                ));
                assert(recipe@.ingredients.take(i + 1).last() == recipe@.ingredients[i as int]);
                assert(recipe@.ingredients[i as int] == e@);
            }
            // Step 2: upsert the ingredient row by name.
            let iid_idx: usize = match find_ingredient_index(catalog, e.name.as_str()) {
                Some(x) => x,
                None => {
                    let x = catalog.ingredients.len();
                    catalog.ingredients.push(IngredientRow { id: x as u64, name: e.name.clone() });
                    let newlen = catalog.ingredients.len();
                    proof {
                        assert(newlen == catalog@.ingredients.len());
                        let newrow = RowV { id: cat_a.ingredients.len() as u64, name: e.name@ };
                        assert(catalog@.ingredients =~= cat_a.ingredients.push(newrow));
                        assert(catalog@.recipes =~= cat_a.recipes);
                        assert(catalog@.assocs =~= cat_a.assocs);
                        assert(catalog@.users =~= cat_a.users);
                        assert forall|p: int|
                            0 <= p < cat_a.ingredients.len() implies (
                            #[trigger] cat_a.ingredients[p]).name != e.name@ by {
                            if cat_a.ingredients[p].name == e.name@ {
                                assert(cat_a.has_ingredient_named(e.name@));
                            }
                        }
                        assert(catalog@.ingredients.len() <= u64::MAX);
                        assert(catalog@.wf());
                        assert(catalog@.ingredients[x as int].name == e.name@);
                        assert(catalog@.has_ingredient_named(e.name@));
                    }
                    x
                },
            };
            let iid: u64 = catalog.ingredients[iid_idx].id;
            let ghost cat_b = upsert_ingredient_spec(cat_a, e@.name);
            proof {
                assert(catalog@ =~= cat_b);
                assert(catalog@.ingredients[iid_idx as int].id == iid_idx as u64);
                let j = choose|j: int|
                    0 <= j < catalog@.ingredients.len() && (#[trigger] catalog@.ingredients[j]).name
                        == e.name@;
                if j != iid_idx as int {
                    assert(catalog@.ingredients[j].name == catalog@.ingredients[iid_idx
                        as int].name);
                    assert(false);
                }
                assert(iid == cat_b.ingredient_id_named(e@.name));
                assert(iid < cat_b.ingredients.len());
            }
            // Step 3: upsert the association row keyed on (recipe, ingredient).
            match find_assoc_index(catalog, rid, iid) {
                Some(k) => {
                    catalog.recipe_ingredients[k] = RecipeIngredientRow {
                        recipe_id: rid,
                        ingredient_id: iid,
                        qty: e.qty.clone(),
                    };
                    proof {
                        let newassoc = AssocV { recipe_id: rid, ingredient_id: iid, qty: e.qty@ };
                        assert(catalog@.assocs =~= cat_b.assocs.update(k as int, newassoc));
                        assert(catalog@.recipes =~= cat_b.recipes);
                        assert(catalog@.ingredients =~= cat_b.ingredients);
                        assert(catalog@.users =~= cat_b.users);
                        assert(catalog@ =~= upsert_assoc_spec(cat_b, rid, iid, e@.qty));
                        assert(catalog@.wf());
                    }
                },
                None => {
                    catalog.recipe_ingredients.push(
                        RecipeIngredientRow { recipe_id: rid, ingredient_id: iid, qty: e.qty.clone() },
                    );
                    proof {
                        let newassoc = AssocV { recipe_id: rid, ingredient_id: iid, qty: e.qty@ };
                        assert(catalog@.assocs =~= cat_b.assocs.push(newassoc));
                        assert(catalog@.recipes =~= cat_b.recipes);
                        assert(catalog@.ingredients =~= cat_b.ingredients);
                        assert(catalog@.users =~= cat_b.users);
                        assert(catalog@ =~= upsert_assoc_spec(cat_b, rid, iid, e@.qty));
                        assert forall|p: int|
                            0 <= p < cat_b.assocs.len() implies !((
                        #[trigger] catalog@.assocs[p]).recipe_id == rid
                            && catalog@.assocs[p].ingredient_id == iid) by {
                            if catalog@.assocs[p].recipe_id == rid && catalog@.assocs[p].ingredient_id
                                == iid {
                                assert(cat_b.assocs[p] == catalog@.assocs[p]);
                                assert(cat_b.has_assoc(rid, iid));
                            }
                        }
                        assert(catalog@.wf());
                    }
                },
            }
            proof {
                assert(catalog@ == upsert_entry_spec(cat_a, rid, e@));
                assert(catalog@ == upsert_entries_spec(
                    cat1,
                    rid,
                    recipe@.ingredients.take(i + 1),
                ));
            }
            i = i + 1;
        }
        proof {
            assert(recipe@.ingredients.take(m as int) =~= recipe@.ingredients);
            assert(catalog@ == insert_recipe_spec(cat0, recipe@));
        }
        let rec = Recipe { name: recipe.name, ingredients: recipe.ingredients };
        proof {
            assert(rec@ =~= recipe@);
        }
        Ok(rec)
    }
}

} // verus!
