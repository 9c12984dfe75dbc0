use cookcli::paths::{
    check_components, check_path, choose_aisle_file, image_address_from, image_url, shown_path,
    shown_path_from, PathPart, RequestError,
};
use cookcli::requests::{
    conversion_prompt, converted_recipe, recipe_file_name, recipe_or_error, PlainTextRecipeRequest,
    SaveRecipeRequest, SearchQuery,
};

#[test]
fn status_codes() {
    assert_eq!(RequestError::BadRequest.status(), 400);
    assert_eq!(RequestError::NotFound.status(), 404);
    assert_eq!(RequestError::Internal.status(), 500);
}

#[test]
fn components_must_all_be_normal() {
    assert_eq!(check_components(&vec![]), Ok(()));
    assert_eq!(check_components(&vec![PathPart::Normal, PathPart::Normal]), Ok(()));
    assert_eq!(
        check_components(&vec![PathPart::Normal, PathPart::ParentDir]),
        Err(RequestError::BadRequest)
    );
    assert_eq!(check_components(&vec![PathPart::RootDir]), Err(RequestError::BadRequest));
    assert_eq!(check_components(&vec![PathPart::CurDir, PathPart::Normal]), Err(RequestError::BadRequest));
    assert_eq!(check_components(&vec![PathPart::Prefix]), Err(RequestError::BadRequest));
}

#[test]
fn check_path_accepts_plain_relative_paths() {
    assert_eq!(check_path("soup.cook"), Ok(()));
    assert_eq!(check_path("dinner/soup.cook"), Ok(()));
    assert_eq!(check_path(""), Ok(()));
}

#[test]
fn check_path_rejects_escapes() {
    assert_eq!(check_path("../secret"), Err(RequestError::BadRequest));
    assert_eq!(check_path("dinner/../../secret"), Err(RequestError::BadRequest));
    assert_eq!(check_path("/etc/passwd"), Err(RequestError::BadRequest));
    assert_eq!(check_path("./soup.cook"), Err(RequestError::BadRequest));
}

#[test]
fn image_address_cases() {
    assert_eq!(
        image_address_from("https://x.org/a.png", None, false, None),
        Some("https://x.org/a.png".to_string())
    );
    assert_eq!(
        image_address_from("http://x.org/a.png", Some("r".to_string()), true, None),
        Some("http://x.org/a.png".to_string())
    );
    assert_eq!(
        image_address_from("/base/a.png", Some("a.png".to_string()), true, Some("a.png".to_string())),
        Some("/api/static/a.png".to_string())
    );
    assert_eq!(
        image_address_from("pics/a.png", None, false, Some("a.png".to_string())),
        Some("/api/static/pics/a.png".to_string())
    );
    assert_eq!(
        image_address_from("/else/pics/a.png", None, true, Some("a.png".to_string())),
        Some("/api/static/a.png".to_string())
    );
    assert_eq!(image_address_from("/", None, true, None), None);
}

#[test]
fn image_url_uses_the_path_library() {
    assert_eq!(image_url("https://x.org/a.png", "/base"), Some("https://x.org/a.png".to_string()));
    assert_eq!(image_url("/base/pics/a.png", "/base"), Some("/api/static/pics/a.png".to_string()));
    assert_eq!(image_url("pics/a.png", "/base"), Some("/api/static/pics/a.png".to_string()));
    assert_eq!(image_url("/else/pics/a.png", "/base"), Some("/api/static/a.png".to_string()));
    assert_eq!(image_url("/basement/a.png", "/base"), Some("/api/static/a.png".to_string()));
    assert_eq!(image_url("/", "/base"), None);
}

#[test]
fn shown_path_is_relative_where_possible() {
    assert_eq!(shown_path_from("/base/a.cook", Some("a.cook".to_string())), "a.cook");
    assert_eq!(shown_path_from("/else/a.cook", None), "/else/a.cook");
    assert_eq!(shown_path("/base/dinner/a.cook", "/base"), "dinner/a.cook");
    assert_eq!(shown_path("/else/a.cook", "/base"), "/else/a.cook");
}

#[test]
fn aisle_file_prefers_the_recipe_directory() {
    let local = "/base/config/aisle.conf".to_string();
    let global = Some("/home/u/.config/cook/aisle.conf".to_string());
    assert_eq!(choose_aisle_file(local.clone(), true, global.clone(), true), Some(local.clone()));
    assert_eq!(choose_aisle_file(local.clone(), false, global.clone(), true), global);
    assert_eq!(choose_aisle_file(local.clone(), false, global.clone(), false), None);
    assert_eq!(choose_aisle_file(local.clone(), false, None, true), None);
    assert_eq!(choose_aisle_file(local.clone(), true, None, false), Some(local));
}

#[test]
fn file_name_from_title() {
    assert_eq!(recipe_file_name(Some("Apple Pie"), "x"), "apple-pie.cook");
    assert_eq!(recipe_file_name(Some("  Mom's Best: Soup!  "), "x"), "mom-s-best--soup-.cook");
    assert_eq!(recipe_file_name(Some("Crème Brûlée"), "x"), "crème-brûlée.cook");
    assert_eq!(recipe_file_name(Some("a/b"), "x"), "a-b.cook");
    assert_eq!(recipe_file_name(Some(""), "x"), ".cook");
    assert_eq!(recipe_file_name(Some("   "), "x"), ".cook");
}

#[test]
fn file_name_from_time() {
    assert_eq!(recipe_file_name(None, "20240229-101500"), "recipe-20240229-101500.cook");
}

#[test]
fn requests_name_their_files() {
    let save = SaveRecipeRequest { title: Some("Fish & Chips".to_string()), content: "x".to_string() };
    assert_eq!(save.file_name("t"), "fish---chips.cook");
    let untitled = SaveRecipeRequest { title: None, content: "x".to_string() };
    assert_eq!(untitled.file_name("t"), "recipe-t.cook");
    let plain = PlainTextRecipeRequest { title: Some("Tea".to_string()), content: "boil".to_string() };
    assert_eq!(plain.file_name("t"), "tea.cook");
    let query = SearchQuery { q: "tea".to_string() };
    assert_eq!(query.q, "tea");
}

#[test]
fn empty_content_is_a_bad_request() {
    let empty = PlainTextRecipeRequest { title: None, content: String::new() };
    assert_eq!(empty.validate(), Err(RequestError::BadRequest));
    let full = PlainTextRecipeRequest { title: None, content: "boil water".to_string() };
    assert_eq!(full.validate(), Ok(()));
}

#[test]
fn prompt_wraps_the_recipe() {
    let prompt = conversion_prompt("Boil an egg.");
    assert!(prompt.starts_with("Convert this recipe to cooklang format (https://cooklang.org/).\n"));
    assert!(prompt.contains("Preheat #oven{} to 375°F.\nIn a #large bowl{}, cream together @butter{1%cup} and @sugar{1%cup}.\n\n"));
    assert!(prompt.ends_with(
        "Here's the recipe to convert:\nBoil an egg.\nReturn only the cooklang recipe text, no other text."
    ));
    let request = PlainTextRecipeRequest { title: None, content: "Boil an egg.".to_string() };
    assert_eq!(request.prompt(), prompt);
}

#[test]
fn reply_text_is_found_or_an_internal_error() {
    assert_eq!(recipe_or_error(Some("x".to_string())), Ok("x".to_string()));
    assert_eq!(recipe_or_error(None), Err(RequestError::Internal));
    assert_eq!(
        converted_recipe("{\"content\":[{\"type\":\"text\",\"text\":\"Boil @egg{1}.\"}]}"),
        Ok("Boil @egg{1}.".to_string())
    );
    assert_eq!(converted_recipe("{\"content\":[]}"), Err(RequestError::Internal));
    assert_eq!(converted_recipe("{\"content\":[{\"text\":5}]}"), Err(RequestError::Internal));
    assert_eq!(converted_recipe("{\"error\":\"no\"}"), Err(RequestError::Internal));
    assert_eq!(converted_recipe("not json"), Err(RequestError::Internal));
}

#[test]
fn reply_content_must_be_an_array() {
    assert_eq!(
        converted_recipe("{\"content\":{\"0\":{\"text\":\"T\"}}}"),
        Err(RequestError::Internal)
    );
    assert_eq!(converted_recipe("[{\"text\":\"T\"}]"), Err(RequestError::Internal));
    assert_eq!(converted_recipe("{\"content\":[[\"text\",\"T\"]]}"), Err(RequestError::Internal));
    assert_eq!(converted_recipe("{\"content\":[null,{\"text\":\"T\"}]}"), Err(RequestError::Internal));
    assert_eq!(
        converted_recipe("{\"content\":[{\"text\":\"first\"},{\"text\":\"second\"}]}"),
        Ok("first".to_string())
    );
    assert_eq!(converted_recipe("\u{feff}{\"content\":[{\"text\":\"T\"}]}"), Err(RequestError::Internal));
}
