use recipe_catalog::errors::RepoError;
use recipe_catalog::model::{
    Catalog, IngredientInfo, IngredientRow, NewRecipe, Recipe, RecipeIngredientRow, RecipeRow,
};
use recipe_catalog::repository::RecipeRepository;

fn ing(name: &str, qty: &str) -> IngredientInfo {
    IngredientInfo { name: name.to_string(), qty: qty.to_string() }
}

fn pancakes() -> NewRecipe {
    NewRecipe {
        name: "Pancakes".to_string(),
        ingredients: vec![ing("Flour", "2 cups"), ing("Egg", "2")],
    }
}

fn pair_set(entries: &[IngredientInfo]) -> Vec<(String, String)> {
    let mut v: Vec<(String, String)> = entries
        .iter()
        .map(|e| (e.name.clone(), e.qty.clone()))
        .collect();
    v.sort();
    v
}

#[test]
fn insert_then_get_by_name_returns_both_ingredients() {
    let mut cat = Catalog::new();
    let echoed = RecipeRepository::insert_recipe(&mut cat, pancakes()).unwrap();
    assert_eq!(echoed.name, "Pancakes");
    let got = RecipeRepository::get_recipe_by_name(&cat, "Pancakes")
        .unwrap()
        .unwrap();
    assert_eq!(got.name, "Pancakes");
    assert_eq!(
        pair_set(&got.ingredients),
        vec![
            ("Egg".to_string(), "2".to_string()),
            ("Flour".to_string(), "2 cups".to_string())
        ]
    );
}

#[test]
fn get_by_name_missing_fails_with_not_found_carrying_name() {
    let cat = Catalog::new();
    let err = RecipeRepository::get_recipe_by_name(&cat, "Ghost Stew").unwrap_err();
    assert_eq!(err, RepoError::NotFound { name: "Ghost Stew".to_string() });
}

#[test]
fn by_ingredient_lists_complete_ingredients_of_each_match() {
    let mut cat = Catalog::new();
    RecipeRepository::insert_recipe(&mut cat, pancakes()).unwrap();
    let found = RecipeRepository::get_recipes_by_ingredient_name(&cat, "Flour").unwrap();
    assert_eq!(found.len(), 1);
    assert_eq!(found[0].name, "Pancakes");
    // The full list comes back, not merely the ingredient that matched.
    assert_eq!(found[0].ingredients.len(), 2);
}

#[test]
fn by_ingredient_unknown_name_fails_with_not_found() {
    let cat = Catalog::new();
    let err = RecipeRepository::get_recipes_by_ingredient_name(&cat, "Saffron").unwrap_err();
    assert_eq!(err, RepoError::NotFound { name: "Saffron".to_string() });
}

#[test]
fn by_ingredients_exact_set_and_partial_resolution() {
    let mut cat = Catalog::new();
    RecipeRepository::insert_recipe(&mut cat, pancakes()).unwrap();
    let both = vec!["Flour".to_string(), "Egg".to_string()];
    let found = RecipeRepository::get_recipes_by_ingredient_names(&cat, &both).unwrap();
    assert_eq!(found.len(), 1);
    assert_eq!(found[0].name, "Pancakes");

    let with_unknown = vec!["Flour".to_string(), "Sugar".to_string()];
    let err = RecipeRepository::get_recipes_by_ingredient_names(&cat, &with_unknown).unwrap_err();
    match err {
        RepoError::PartialResolution { wanted, found } => {
            assert_eq!(wanted, with_unknown);
            assert_eq!(found, vec!["Flour".to_string()]);
        }
        other => panic!("expected PartialResolution, got {:?}", other),
    }
}

#[test]
fn by_ingredients_tolerates_extra_ingredients_on_the_recipe() {
    let mut cat = Catalog::new();
    RecipeRepository::insert_recipe(&mut cat, pancakes()).unwrap();
    // A subset of the recipe's ingredient set still matches it.
    let subset = vec!["Egg".to_string()];
    let found = RecipeRepository::get_recipes_by_ingredient_names(&cat, &subset).unwrap();
    assert_eq!(found.len(), 1);
    assert_eq!(found[0].name, "Pancakes");
    assert_eq!(found[0].ingredients.len(), 2);
}

#[test]
fn by_ingredients_excludes_recipes_lacking_a_requested_name() {
    let mut cat = Catalog::new();
    RecipeRepository::insert_recipe(&mut cat, pancakes()).unwrap();
    let omelette = NewRecipe {
        name: "Omelette".to_string(),
        ingredients: vec![ing("Egg", "3"), ing("Butter", "1 tbsp")],
    };
    RecipeRepository::insert_recipe(&mut cat, omelette).unwrap();
    // Flour is not in the omelette, so only the pancakes match.
    let names = vec!["Egg".to_string(), "Flour".to_string()];
    let found = RecipeRepository::get_recipes_by_ingredient_names(&cat, &names).unwrap();
    assert_eq!(found.len(), 1);
    assert_eq!(found[0].name, "Pancakes");
}

#[test]
fn by_ingredients_empty_request_matches_no_recipes() {
    let mut cat = Catalog::new();
    RecipeRepository::insert_recipe(&mut cat, pancakes()).unwrap();
    let found = RecipeRepository::get_recipes_by_ingredient_names(&cat, &Vec::new()).unwrap();
    assert!(found.is_empty());
}

#[test]
fn upsert_twice_is_idempotent_and_second_quantity_wins() {
    let mut cat = Catalog::new();
    RecipeRepository::insert_recipe(&mut cat, pancakes()).unwrap();
    let second = NewRecipe {
        name: "Pancakes".to_string(),
        ingredients: vec![ing("Flour", "3 cups"), ing("Egg", "2")],
    };
    RecipeRepository::insert_recipe(&mut cat, second).unwrap();
    assert_eq!(cat.recipes.len(), 1);
    assert_eq!(cat.ingredients.len(), 2);
    assert_eq!(cat.recipe_ingredients.len(), 2);
    let got = RecipeRepository::get_recipe_by_name(&cat, "Pancakes")
        .unwrap()
        .unwrap();
    assert_eq!(
        pair_set(&got.ingredients),
        vec![
            ("Egg".to_string(), "2".to_string()),
            ("Flour".to_string(), "3 cups".to_string())
        ]
    );
}

#[test]
fn round_trip_preserves_the_pair_set_regardless_of_order() {
    let mut cat = Catalog::new();
    let reversed = NewRecipe {
        name: "Pancakes".to_string(),
        ingredients: vec![ing("Egg", "2"), ing("Flour", "2 cups")],
    };
    RecipeRepository::insert_recipe(&mut cat, reversed).unwrap();
    let got = RecipeRepository::get_recipe_by_name(&cat, "Pancakes")
        .unwrap()
        .unwrap();
    assert_eq!(pair_set(&got.ingredients), pair_set(&pancakes().ingredients));
}

#[test]
fn repeated_input_name_resolves_to_one_row_with_last_quantity() {
    let mut cat = Catalog::new();
    let doubled = NewRecipe {
        name: "Paste".to_string(),
        ingredients: vec![ing("Flour", "1 cup"), ing("Flour", "2 cups")],
    };
    RecipeRepository::insert_recipe(&mut cat, doubled).unwrap();
    assert_eq!(cat.ingredients.len(), 1);
    assert_eq!(cat.recipe_ingredients.len(), 1);
    let got = RecipeRepository::get_recipe_by_name(&cat, "Paste").unwrap().unwrap();
    assert_eq!(got.ingredients, vec![ing("Flour", "2 cups")]);
}

#[test]
fn shared_ingredient_uses_a_single_row_across_recipes() {
    let mut cat = Catalog::new();
    RecipeRepository::insert_recipe(&mut cat, pancakes()).unwrap();
    let bread = NewRecipe {
        name: "Bread".to_string(),
        ingredients: vec![ing("Flour", "4 cups"), ing("Yeast", "1 tsp")],
    };
    RecipeRepository::insert_recipe(&mut cat, bread).unwrap();
    // Flour, Egg, Yeast: the shared Flour row is reused, not duplicated.
    assert_eq!(cat.ingredients.len(), 3);
    let found = RecipeRepository::get_recipes_by_ingredient_name(&cat, "Flour").unwrap();
    let mut names: Vec<String> = found.iter().map(|r| r.name.clone()).collect();
    names.sort();
    assert_eq!(names, vec!["Bread".to_string(), "Pancakes".to_string()]);
}

#[test]
fn from_rows_maps_joined_pairs_in_supplied_order() {
    let recipe = RecipeRow { id: 0, name: "Pancakes".to_string() };
    let pairs = vec![
        (
            RecipeIngredientRow { recipe_id: 0, ingredient_id: 1, qty: "2".to_string() },
            IngredientRow { id: 1, name: "Egg".to_string() },
        ),
        (
            RecipeIngredientRow { recipe_id: 0, ingredient_id: 0, qty: "2 cups".to_string() },
            IngredientRow { id: 0, name: "Flour".to_string() },
        ),
    ];
    let api = Recipe::from_rows(&recipe, &pairs);
    assert_eq!(api.name, "Pancakes");
    assert_eq!(api.ingredients, vec![ing("Egg", "2"), ing("Flour", "2 cups")]);
}
