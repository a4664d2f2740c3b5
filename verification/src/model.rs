use vstd::prelude::*;

verus! {

// ---------------------------------------------------------------------------
// Ghost model: the relational state as mathematical sequences.
// ---------------------------------------------------------------------------

/// Model of a persisted recipe or ingredient row: surrogate id plus name.
#[verifier::ext_equal]
pub struct RowV {
    pub id: u64,
    pub name: Seq<char>,
}

/// Model of a recipe-ingredient association row.
#[verifier::ext_equal]
pub struct AssocV {
    pub recipe_id: u64,
    pub ingredient_id: u64,
    pub qty: Seq<char>,
}

/// Model of one (ingredient name, quantity) pair of an API-facing recipe.
#[verifier::ext_equal]
pub struct EntryV {
    pub name: Seq<char>,
    pub qty: Seq<char>,
}

/// Model of a stored user credential row.
#[verifier::ext_equal]
pub struct UserV {
    pub username: Seq<char>,
    pub password: Seq<char>,
}

/// Model of an API-facing recipe: its name and its ingredient pairs.
#[verifier::ext_equal]
pub struct RecipeV {
    pub name: Seq<char>,
    pub ingredients: Seq<EntryV>,
}

/// Model of the whole relational state: three recipe tables plus users.
#[verifier::ext_equal]
pub struct CatalogV {
    pub recipes: Seq<RowV>,
    pub ingredients: Seq<RowV>,
    pub assocs: Seq<AssocV>,
    pub users: Seq<UserV>,
}

// ---------------------------------------------------------------------------
// Executable types.
// ---------------------------------------------------------------------------

/// A persisted recipe row.
pub struct RecipeRow {
    pub id: u64,
    pub name: String,
}

impl View for RecipeRow {
    type V = RowV;

    open spec fn view(&self) -> RowV {
        RowV { id: self.id, name: self.name@ }
    }
}

/// A persisted ingredient row.
pub struct IngredientRow {
    pub id: u64,
    pub name: String,
}

impl View for IngredientRow {
    type V = RowV;

    open spec fn view(&self) -> RowV {
        RowV { id: self.id, name: self.name@ }
    }
}

/// A persisted association row: recipe, ingredient, and the quantity used.
pub struct RecipeIngredientRow {
    pub recipe_id: u64,
    pub ingredient_id: u64,
    pub qty: String,
}

impl View for RecipeIngredientRow {
    type V = AssocV;

    open spec fn view(&self) -> AssocV {
        AssocV { recipe_id: self.recipe_id, ingredient_id: self.ingredient_id, qty: self.qty@ }
    }
}

/// One (ingredient name, quantity) pair, both as given by or shown to callers.
#[derive(Debug, PartialEq, Eq, Clone)]
pub struct IngredientInfo {
    pub name: String,
    pub qty: String,
}

impl View for IngredientInfo {
    type V = EntryV;

    open spec fn view(&self) -> EntryV {
        EntryV { name: self.name@, qty: self.qty@ }
    }
}

/// An API-facing recipe: name plus its ingredient pairs.
#[derive(Debug, PartialEq, Eq, Clone)]
pub struct Recipe {
    pub name: String,
    pub ingredients: Vec<IngredientInfo>,
}

impl View for Recipe {
    type V = RecipeV;

    open spec fn view(&self) -> RecipeV {
        RecipeV {
            name: self.name@,
            ingredients: self.ingredients@.map_values(|e: IngredientInfo| e@),
        }
    }
}

impl Recipe {
    /// Map one persisted recipe row and its joined (association, ingredient)
    /// pairs to the API-facing shape, with the pairs in the order supplied.
    pub fn from_rows(recipe: &RecipeRow, pairs: &Vec<(RecipeIngredientRow, IngredientRow)>) -> (r:
        Recipe)
        ensures
            r@.name == recipe.name@,
            r@.ingredients == pairs@.map_values(
                |p: (RecipeIngredientRow, IngredientRow)| EntryV { name: p.1.name@, qty: p.0.qty@ },
            ),
    {
        let n = pairs.len();
        let mut out: Vec<IngredientInfo> = Vec::new();
        let mut i: usize = 0;
        while i < n
            invariant
                n == pairs.len(),
                0 <= i <= n,
                out@.map_values(|e: IngredientInfo| e@) == pairs@.take(i as int).map_values(
                    |p: (RecipeIngredientRow, IngredientRow)| EntryV {
                        name: p.1.name@,
                        qty: p.0.qty@,
                    },
                ),
            decreases n - i,
        {
            let ghost prev = out@.map_values(|e: IngredientInfo| e@);
            let entry = IngredientInfo { name: pairs[i].1.name.clone(), qty: pairs[i].0.qty.clone() };
            out.push(entry);
            proof {
                assert(pairs@.take(i + 1).drop_last() =~= pairs@.take(i as int));
                assert(out@.map_values(|e: IngredientInfo| e@) =~= prev.push(entry@));
                assert(pairs@.take(i + 1).map_values(
                    |p: (RecipeIngredientRow, IngredientRow)| EntryV {
                        name: p.1.name@,
                        qty: p.0.qty@,
                    },
                ) =~= pairs@.take(i as int).map_values(
                    |p: (RecipeIngredientRow, IngredientRow)| EntryV {
                        name: p.1.name@,
                        qty: p.0.qty@,
                    },
                ).push(EntryV { name: pairs@[i as int].1.name@, qty: pairs@[i as int].0.qty@ }));
            }
            i = i + 1;
        }
        proof {
            assert(pairs@.take(n as int) =~= pairs@);
        }
        Recipe { name: recipe.name.clone(), ingredients: out }
    }
}

/// Input shape for the upsert: recipe name plus ingredient pairs by name.
#[derive(Debug, PartialEq, Eq, Clone)]
pub struct NewRecipe {
    pub name: String,
    pub ingredients: Vec<IngredientInfo>,
}

impl View for NewRecipe {
    type V = RecipeV;

    open spec fn view(&self) -> RecipeV {
        RecipeV {
            name: self.name@,
            ingredients: self.ingredients@.map_values(|e: IngredientInfo| e@),
        }
    }
}

/// A stored user credential row.
pub struct UserRow {
    pub username: String,
    pub password: String,
}

impl View for UserRow {
    type V = UserV;

    open spec fn view(&self) -> UserV {
        UserV { username: self.username@, password: self.password@ }
    }
}

/// The in-memory relational store: recipes, ingredients, their associations,
/// and user credentials.
pub struct Catalog {
    pub recipes: Vec<RecipeRow>,
    pub ingredients: Vec<IngredientRow>,
    pub recipe_ingredients: Vec<RecipeIngredientRow>,
    pub users: Vec<UserRow>,
}

impl View for Catalog {
    type V = CatalogV;

    open spec fn view(&self) -> CatalogV {
        CatalogV {
            recipes: self.recipes@.map_values(|r: RecipeRow| r@),
            ingredients: self.ingredients@.map_values(|r: IngredientRow| r@),
            assocs: self.recipe_ingredients@.map_values(|r: RecipeIngredientRow| r@),
            users: self.users@.map_values(|r: UserRow| r@),
        }
    }
}

// ---------------------------------------------------------------------------
// The relational invariant and the model's observation functions.
// ---------------------------------------------------------------------------

impl CatalogV {
    /// Relational invariant: ids are dense indices into their table, names are
    /// unique per table, every association references existing rows, and at
    /// most one association exists per (recipe, ingredient) pair.
    pub open spec fn wf(self) -> bool {
        &&& self.recipes.len() <= u64::MAX
        &&& self.ingredients.len() <= u64::MAX
        &&& forall|i: int|
            0 <= i < self.recipes.len() ==> (#[trigger] self.recipes[i]).id == i as u64
        &&& forall|i: int, j: int|
            0 <= i < j < self.recipes.len() ==> (#[trigger] self.recipes[i]).name != (
            #[trigger] self.recipes[j]).name
        &&& forall|i: int|
            0 <= i < self.ingredients.len() ==> (#[trigger] self.ingredients[i]).id == i as u64
        &&& forall|i: int, j: int|
            0 <= i < j < self.ingredients.len() ==> (#[trigger] self.ingredients[i]).name != (
            #[trigger] self.ingredients[j]).name
        &&& forall|k: int|
            0 <= k < self.assocs.len() ==> (#[trigger] self.assocs[k]).recipe_id
                < self.recipes.len() && self.assocs[k].ingredient_id < self.ingredients.len()
        &&& forall|k: int, l: int|
            0 <= k < l < self.assocs.len() ==> !((#[trigger] self.assocs[k]).recipe_id == (
            #[trigger] self.assocs[l]).recipe_id && self.assocs[k].ingredient_id
                == self.assocs[l].ingredient_id)
        &&& forall|i: int, j: int|
            0 <= i < j < self.users.len() ==> (#[trigger] self.users[i]).username != (
            #[trigger] self.users[j]).username
    }

    /// Some recipe row carries this name.
    pub open spec fn has_recipe_named(self, name: Seq<char>) -> bool {
        exists|i: int| 0 <= i < self.recipes.len() && (#[trigger] self.recipes[i]).name == name
    }

    /// The id of the recipe row carrying this name (unique under `wf`).
    pub open spec fn recipe_id_named(self, name: Seq<char>) -> u64 {
        (choose|i: int|
            0 <= i < self.recipes.len() && (#[trigger] self.recipes[i]).name == name) as u64
    }

    /// Some ingredient row carries this name.
    pub open spec fn has_ingredient_named(self, name: Seq<char>) -> bool {
        exists|i: int|
            0 <= i < self.ingredients.len() && (#[trigger] self.ingredients[i]).name == name
    }

    /// The id of the ingredient row carrying this name (unique under `wf`).
    pub open spec fn ingredient_id_named(self, name: Seq<char>) -> u64 {
        (choose|i: int|
            0 <= i < self.ingredients.len() && (#[trigger] self.ingredients[i]).name == name) as u64
    }

    /// An association row links recipe `rid` and ingredient `iid`.
    pub open spec fn has_assoc(self, rid: u64, iid: u64) -> bool {
        exists|k: int|
            0 <= k < self.assocs.len() && (#[trigger] self.assocs[k]).recipe_id == rid
                && self.assocs[k].ingredient_id == iid
    }

    /// The position of the association row for (rid, iid) (unique under `wf`).
    pub open spec fn assoc_index(self, rid: u64, iid: u64) -> int {
        choose|k: int|
            0 <= k < self.assocs.len() && (#[trigger] self.assocs[k]).recipe_id == rid
                && self.assocs[k].ingredient_id == iid
    }

    /// The quantity stored on the association row for (rid, iid).
    pub open spec fn assoc_qty(self, rid: u64, iid: u64) -> Seq<char>
        recommends
            self.has_assoc(rid, iid),
    {
        self.assocs[self.assoc_index(rid, iid)].qty
    }

    /// The joined (ingredient name, quantity) pairs of recipe `rid`,
    /// in association-row order.
    pub open spec fn entries_for(self, rid: u64) -> Seq<EntryV> {
        entries_on(self.assocs, self.ingredients, rid)
    }

    /// The API-facing shape of recipe `rid`: its name and its full pair list.
    pub open spec fn api_for(self, rid: u64) -> RecipeV
        recommends
            rid < self.recipes.len(),
    {
        RecipeV { name: self.recipes[rid as int].name, ingredients: self.entries_for(rid) }
    }

    /// Recipe `rid` has an association with an ingredient of this name.
    pub open spec fn recipe_has_named_ingredient(self, rid: u64, name: Seq<char>) -> bool {
        exists|k: int|
            0 <= k < self.assocs.len() && (#[trigger] self.assocs[k]).recipe_id == rid
                && self.assocs[k].ingredient_id < self.ingredients.len()
                && self.ingredients[self.assocs[k].ingredient_id as int].name == name
    }

    /// Recipe `rid`'s ingredient names cover every wanted name.
    pub open spec fn has_all_named_ingredients(self, rid: u64, wanted: Seq<Seq<char>>) -> bool {
        forall|i: int|
            0 <= i < wanted.len() ==> self.recipe_has_named_ingredient(rid, #[trigger] wanted[i])
    }

    /// Recipe `rid` is an answer to a by-ingredient-set query: its ingredient
    /// set is a superset of the wanted names. The empty query matches no
    /// recipe: with no wanted ingredient there is no association to start from.
    pub open spec fn matches_query(self, rid: u64, wanted: Seq<Seq<char>>) -> bool {
        wanted.len() > 0 && self.has_all_named_ingredients(rid, wanted)
    }

    /// Every wanted name resolves to a stored ingredient.
    pub open spec fn all_resolved(self, wanted: Seq<Seq<char>>) -> bool {
        forall|i: int| 0 <= i < wanted.len() ==> self.has_ingredient_named(#[trigger] wanted[i])
    }

    /// A stored user carries this username.
    pub open spec fn has_user_named(self, username: Seq<char>) -> bool {
        exists|i: int| 0 <= i < self.users.len() && (#[trigger] self.users[i]).username == username
    }

    /// The position of the user row carrying this username (unique under `wf`).
    pub open spec fn user_index_named(self, username: Seq<char>) -> int {
        choose|i: int|
            0 <= i < self.users.len() && (#[trigger] self.users[i]).username == username
    }

    /// The password stored for this username (unique under `wf`).
    pub open spec fn password_of(self, username: Seq<char>) -> Seq<char>
        recommends
            self.has_user_named(username),
    {
        self.users[self.user_index_named(username)].password
    }
}

/// The joined (ingredient name, quantity) pairs among `assocs` that belong to
/// recipe `rid`, in association order, resolving ingredient names by id.
pub open spec fn entries_on(assocs: Seq<AssocV>, ingredients: Seq<RowV>, rid: u64) -> Seq<EntryV>
    decreases assocs.len(),
{
    if assocs.len() == 0 {
        Seq::empty()
    } else {
        let rest = entries_on(assocs.drop_last(), ingredients, rid);
        let a = assocs.last();
        if a.recipe_id == rid && a.ingredient_id < ingredients.len() {
            rest.push(EntryV { name: ingredients[a.ingredient_id as int].name, qty: a.qty })
        } else {
            rest
        }
    }
}

/// The character views of a sequence of strings.
pub open spec fn strings_view(s: Seq<String>) -> Seq<Seq<char>> {
    s.map_values(|x: String| x@)
}

/// The API recipes among `rows` that have an association with ingredient
/// `iid`, in row order, each carrying its full ingredient list.
pub open spec fn apis_with_ingredient(cat: CatalogV, rows: Seq<RowV>, iid: u64) -> Seq<RecipeV>
    decreases rows.len(),
{
    if rows.len() == 0 {
        Seq::empty()
    } else {
        let rest = apis_with_ingredient(cat, rows.drop_last(), iid);
        if cat.has_assoc(rows.last().id, iid) {
            rest.push(cat.api_for(rows.last().id))
        } else {
            rest
        }
    }
}

/// The API recipes among `rows` whose ingredient names cover every wanted
/// name, in row order, each carrying its full ingredient list.
pub open spec fn apis_matching(cat: CatalogV, rows: Seq<RowV>, wanted: Seq<Seq<char>>) -> Seq<
    RecipeV,
>
    decreases rows.len(),
{
    if rows.len() == 0 {
        Seq::empty()
    } else {
        let rest = apis_matching(cat, rows.drop_last(), wanted);
        if cat.matches_query(rows.last().id, wanted) {
            rest.push(cat.api_for(rows.last().id))
        } else {
            rest
        }
    }
}

/// The names of the stored ingredients that appear among the wanted names,
/// in store order.
pub open spec fn resolved_names(ingredients: Seq<RowV>, wanted: Seq<Seq<char>>) -> Seq<Seq<char>>
    decreases ingredients.len(),
{
    if ingredients.len() == 0 {
        Seq::empty()
    } else {
        let rest = resolved_names(ingredients.drop_last(), wanted);
        if wanted.contains(ingredients.last().name) {
            rest.push(ingredients.last().name)
        } else {
            rest
        }
    }
}

// ---------------------------------------------------------------------------
// The mutation's effect on the model, step by step.
// ---------------------------------------------------------------------------

/// Upsert of a recipe row by name: a no-op when the name exists, else a new
/// row with the next id.
pub open spec fn upsert_recipe_spec(cat: CatalogV, name: Seq<char>) -> CatalogV {
    if cat.has_recipe_named(name) {
        cat
    } else {
        CatalogV {
            recipes: cat.recipes.push(RowV { id: cat.recipes.len() as u64, name }),
            ingredients: cat.ingredients,
            assocs: cat.assocs,
            users: cat.users,
        }
    }
}

/// Upsert of an ingredient row by name: a no-op when the name exists, else a
/// new row with the next id.
pub open spec fn upsert_ingredient_spec(cat: CatalogV, name: Seq<char>) -> CatalogV {
    if cat.has_ingredient_named(name) {
        cat
    } else {
        CatalogV {
            recipes: cat.recipes,
            ingredients: cat.ingredients.push(RowV { id: cat.ingredients.len() as u64, name }),
            assocs: cat.assocs,
            users: cat.users,
        }
    }
}

/// Upsert of an association row keyed on (recipe, ingredient): the quantity is
/// updated in place on conflict, else a new row is appended.
pub open spec fn upsert_assoc_spec(cat: CatalogV, rid: u64, iid: u64, qty: Seq<char>) -> CatalogV {
    if cat.has_assoc(rid, iid) {
        CatalogV {
            recipes: cat.recipes,
            ingredients: cat.ingredients,
            assocs: cat.assocs.update(
                cat.assoc_index(rid, iid),
                AssocV { recipe_id: rid, ingredient_id: iid, qty },
            ),
            users: cat.users,
        }
    } else {
        CatalogV {
            recipes: cat.recipes,
            ingredients: cat.ingredients,
            assocs: cat.assocs.push(AssocV { recipe_id: rid, ingredient_id: iid, qty }),
            users: cat.users,
        }
    }
}

/// One step of the upsert: resolve the entry's ingredient by name, then write
/// the association of recipe `rid` with it, carrying the entry's quantity.
pub open spec fn upsert_entry_spec(cat: CatalogV, rid: u64, e: EntryV) -> CatalogV {
    let c = upsert_ingredient_spec(cat, e.name);
    upsert_assoc_spec(c, rid, c.ingredient_id_named(e.name), e.qty)
}

/// The upsert's ingredient phase: entries are written front to back.
pub open spec fn upsert_entries_spec(cat: CatalogV, rid: u64, es: Seq<EntryV>) -> CatalogV
    decreases es.len(),
{
    if es.len() == 0 {
        cat
    } else {
        upsert_entry_spec(upsert_entries_spec(cat, rid, es.drop_last()), rid, es.last())
    }
}

/// The whole upsert: resolve or create the recipe row, then write every
/// ingredient and association of the request.
pub open spec fn insert_recipe_spec(cat: CatalogV, r: RecipeV) -> CatalogV {
    let c = upsert_recipe_spec(cat, r.name);
    upsert_entries_spec(c, c.recipe_id_named(r.name), r.ingredients)
}

impl Catalog {
    /// An empty store.
    pub fn new() -> (r: Catalog)
        ensures
            r@ == (CatalogV {
                recipes: Seq::<RowV>::empty(),
                ingredients: Seq::<RowV>::empty(),
                assocs: Seq::<AssocV>::empty(),
                users: Seq::<UserV>::empty(),
            }),
            r@.wf(),
    {
        let r = Catalog {
            recipes: Vec::new(),
            ingredients: Vec::new(),
            recipe_ingredients: Vec::new(),
            users: Vec::new(),
        };
        proof {
            assert(r@.recipes =~= Seq::<RowV>::empty());
            assert(r@.ingredients =~= Seq::<RowV>::empty());
            assert(r@.assocs =~= Seq::<AssocV>::empty());
            assert(r@.users =~= Seq::<UserV>::empty());
        }
        r
    }
}

// ---------------------------------------------------------------------------
// Verified string comparison over character views.
// ---------------------------------------------------------------------------

/// Character-wise equality of two string slices.
pub fn str_eq(a: &str, b: &str) -> (r: bool)
    ensures
        r == (a@ == b@),
{
    let alen = a.unicode_len();
    let blen = b.unicode_len();
    if alen != blen {
        return false;
    }
    let mut i: usize = 0;
    while i < alen
        invariant
            alen == a@.len(),
            alen == b@.len(),
            0 <= i <= alen,
            forall|k: int| 0 <= k < i ==> a@[k] == b@[k],
        decreases alen - i,
    {
        if a.get_char(i) != b.get_char(i) {
            return false;
        }
        i = i + 1;
    }
    proof {
        assert(a@ =~= b@);
    }
    true
}

} // verus!
