use steel::block_state::{split_properties, split_state, StateSyntax};
use steel::error::PlanError;

fn pairs(list: &[(&str, &str)]) -> Vec<(String, String)> {
    list.iter().map(|(k, v)| (k.to_string(), v.to_string())).collect()
}

#[test]
fn plain_name_has_no_property_list() {
    assert_eq!(
        split_state("minecraft:stone"),
        Ok(StateSyntax { name: "minecraft:stone".to_owned(), properties: None })
    );
}

#[test]
fn bracketed_list_is_split_off() {
    assert_eq!(
        split_state("minecraft:oak_stairs[facing=north,half=bottom,shape=straight,waterlogged=false]"),
        Ok(StateSyntax {
            name: "minecraft:oak_stairs".to_owned(),
            properties: Some("facing=north,half=bottom,shape=straight,waterlogged=false".to_owned()),
        })
    );
}

#[test]
fn bracket_errors() {
    assert_eq!(split_state("minecraft:stone[a=b"), Err(PlanError::UnmatchedBracket));
    assert_eq!(split_state("minecraft:stone["), Err(PlanError::UnmatchedBracket));
    assert_eq!(split_state("minecraft:stone[]"), Err(PlanError::EmptyPropertyList));
    assert_eq!(split_state("minecraft:stone]"), Err(PlanError::UnmatchedClosingBracket));
}

#[test]
fn split_happens_at_the_first_open_bracket() {
    assert_eq!(
        split_state("a[b[c]]"),
        Ok(StateSyntax { name: "a".to_owned(), properties: Some("b[c]".to_owned()) })
    );
    assert_eq!(
        split_state("é[ü=ß]"),
        Ok(StateSyntax { name: "é".to_owned(), properties: Some("ü=ß".to_owned()) })
    );
}

#[test]
fn properties_split_at_commas_and_first_equals() {
    assert_eq!(
        split_properties("facing=north,half=bottom"),
        Ok(pairs(&[("facing", "north"), ("half", "bottom")]))
    );
    assert_eq!(split_properties("a=b=c"), Ok(pairs(&[("a", "b=c")])));
    assert_eq!(split_properties("=x"), Ok(pairs(&[("", "x")])));
}

#[test]
fn malformed_properties_are_named() {
    assert_eq!(
        split_properties("facing=north,half"),
        Err(PlanError::InvalidProperty("half".to_owned()))
    );
    assert_eq!(
        split_properties("facing=north,"),
        Err(PlanError::InvalidProperty(String::new()))
    );
}

#[test]
fn repeated_keys_are_named() {
    assert_eq!(
        split_properties("half=top,facing=north,half=bottom"),
        Err(PlanError::DuplicateProperty("half".to_owned()))
    );
}

#[test]
fn first_problem_wins() {
    assert_eq!(
        split_properties("a=1,a=2,b"),
        Err(PlanError::DuplicateProperty("a".to_owned()))
    );
    assert_eq!(
        split_properties("a=1,b,a=2"),
        Err(PlanError::InvalidProperty("b".to_owned()))
    );
}

#[test]
fn accepted_lists_join_back_to_the_text() {
    let text = "facing=north,half=bottom,shape=straight,waterlogged=false";
    let split = split_properties(text).unwrap();
    let joined: Vec<String> = split.iter().map(|(k, v)| format!("{k}={v}")).collect();
    assert_eq!(joined.join(","), text);
    let state = "minecraft:oak_stairs[facing=north,half=bottom]";
    let syntax = split_state(state).unwrap();
    assert_eq!(format!("{}[{}]", syntax.name, syntax.properties.unwrap()), state);
}
