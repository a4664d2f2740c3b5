use vstd::prelude::*;

use crate::errors::RepoError;
use crate::model::{
    apis_matching, apis_with_ingredient, resolved_names, strings_view, Catalog, Recipe,
};
use crate::repository::RecipeRepository;

verus! {

/// The per-request bundle: the store handle plus the advisory identity parsed
/// from the session cookie. The identity is not verified against the store.
pub struct Context {
    pub catalog: Catalog,
    pub username: Option<String>,
    pub session_token: Option<String>,
}

/// The read-side operations of the catalog's API.
pub struct Query;

/// The mutation side of the catalog's API. The upsert is available internally
/// through the repository; it is deliberately not wired to any operation here.
pub struct Mutation;

impl Query {
    /// One recipe by exact name, or NotFound carrying the queried name.
    pub fn recipe_by_name(ctx: &Context, name: &str) -> (r: Result<Option<Recipe>, RepoError>)
        requires
            ctx.catalog@.wf(),
        ensures
            ctx.catalog@.has_recipe_named(name@) ==> (r matches Ok(Some(rec)) && rec@
                == ctx.catalog@.api_for(ctx.catalog@.recipe_id_named(name@))),
            !ctx.catalog@.has_recipe_named(name@) ==> (r matches Err(RepoError::NotFound { name: n })
                && n@ == name@),
    {
        RecipeRepository::get_recipe_by_name(&ctx.catalog, name)
    }

    /// Every recipe using the named ingredient, each with its complete
    /// ingredient list, or NotFound carrying the queried name.
    pub fn recipes_by_ingredient(ctx: &Context, name: &str) -> (r: Result<Vec<Recipe>, RepoError>)
        requires
            ctx.catalog@.wf(),
        ensures
            ctx.catalog@.has_ingredient_named(name@) ==> (r matches Ok(v) && v@.map_values(
                |rec: Recipe| rec@,
            ) == apis_with_ingredient(
                ctx.catalog@,
                ctx.catalog@.recipes,
                ctx.catalog@.ingredient_id_named(name@),
            )),
            !ctx.catalog@.has_ingredient_named(name@) ==> (r matches Err(
                RepoError::NotFound { name: n },
            ) && n@ == name@),
    {
        RecipeRepository::get_recipes_by_ingredient_name(&ctx.catalog, name)
    }

    /// Every recipe whose ingredient set is a superset of the given names;
    /// all-or-nothing on name resolution.
    pub fn recipes_by_ingredients(ctx: &Context, names: &Vec<String>) -> (r: Result<
        Vec<Recipe>,
        RepoError,
    >)
        requires
            ctx.catalog@.wf(),
        ensures
            ctx.catalog@.all_resolved(strings_view(names@)) ==> (r matches Ok(v) && v@.map_values(
                |rec: Recipe| rec@,
            ) == apis_matching(ctx.catalog@, ctx.catalog@.recipes, strings_view(names@))),
            !ctx.catalog@.all_resolved(strings_view(names@)) ==> (r matches Err(
                RepoError::PartialResolution { wanted, found },
            ) && strings_view(wanted@) == strings_view(names@) && strings_view(found@)
                == resolved_names(ctx.catalog@.ingredients, strings_view(names@))),
    {
        RecipeRepository::get_recipes_by_ingredient_names(&ctx.catalog, names)
    }
}

} // verus!
