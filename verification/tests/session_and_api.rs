use recipe_catalog::api::{Context, Query};
use recipe_catalog::errors::RepoError;
use recipe_catalog::model::{Catalog, IngredientInfo, NewRecipe};
use recipe_catalog::repository::RecipeRepository;
use recipe_catalog::session::{parse_session_cookie, UserRepository};

#[test]
fn parse_token_splits_identity_and_token() {
    let (user, token) = parse_session_cookie("alice##tok123".to_string());
    assert_eq!(user, Some("alice".to_string()));
    assert_eq!(token, Some("tok123".to_string()));
}

#[test]
fn parse_token_without_delimiter_yields_nothing() {
    let (user, token) = parse_session_cookie("malformed".to_string());
    assert_eq!(user, None);
    assert_eq!(token, None);
}

#[test]
fn parse_token_takes_the_first_two_segments() {
    let (user, token) = parse_session_cookie("a##b##c".to_string());
    assert_eq!(user, Some("a".to_string()));
    assert_eq!(token, Some("b".to_string()));
}

#[test]
fn parse_token_of_bare_delimiter_yields_empty_segments() {
    let (user, token) = parse_session_cookie("##".to_string());
    assert_eq!(user, Some("".to_string()));
    assert_eq!(token, Some("".to_string()));
}

#[test]
fn login_succeeds_only_on_exact_credentials() {
    let mut cat = Catalog::new();
    assert!(cat.add_user("alice".to_string(), "correct-pw".to_string()));
    assert!(!cat.add_user("alice".to_string(), "other".to_string()));
    assert!(UserRepository::try_login(&cat, "alice", "correct-pw").is_ok());
    assert_eq!(
        UserRepository::try_login(&cat, "alice", "wrong").unwrap_err(),
        RepoError::Unauthorized
    );
    assert_eq!(
        UserRepository::try_login(&cat, "bob", "correct-pw").unwrap_err(),
        RepoError::Unauthorized
    );
}

#[test]
fn query_surface_delegates_to_the_repository() {
    let mut cat = Catalog::new();
    let recipe = NewRecipe {
        name: "Pancakes".to_string(),
        ingredients: vec![
            IngredientInfo { name: "Flour".to_string(), qty: "2 cups".to_string() },
            IngredientInfo { name: "Egg".to_string(), qty: "2".to_string() },
        ],
    };
    RecipeRepository::insert_recipe(&mut cat, recipe).unwrap();
    let ctx = Context { catalog: cat, username: Some("alice".to_string()), session_token: None };

    let got = Query::recipe_by_name(&ctx, "Pancakes").unwrap().unwrap();
    assert_eq!(got.name, "Pancakes");
    assert_eq!(got.ingredients.len(), 2);

    let by_one = Query::recipes_by_ingredient(&ctx, "Flour").unwrap();
    assert_eq!(by_one.len(), 1);
    assert_eq!(by_one[0].ingredients.len(), 2);

    let names = vec!["Flour".to_string(), "Egg".to_string()];
    let by_set = Query::recipes_by_ingredients(&ctx, &names).unwrap();
    assert_eq!(by_set.len(), 1);

    let missing = vec!["Flour".to_string(), "Sugar".to_string()];
    assert!(matches!(
        Query::recipes_by_ingredients(&ctx, &missing),
        Err(RepoError::PartialResolution { .. })
    ));
}
