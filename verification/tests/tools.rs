use underkate::args::{parse_args, parse_list_args, Args, ParseError, Token};
use underkate::codegen::{make_name_safe, mangle_path};
use underkate::common::ResourceType;

#[test]
fn dashes_become_underscores() {
    assert_eq!(make_name_safe("home-room"), "home_room");
    assert_eq!(make_name_safe("a"), "a");
    assert_eq!(make_name_safe("background"), "background");
}

#[test]
fn paths_mangle_to_identifiers() {
    assert_eq!(mangle_path(""), "AssetDir_");
    assert_eq!(mangle_path("root"), "AssetDir_root");
    // '/' is code point 47, '-' is 45.
    assert_eq!(mangle_path("overworld/rooms"), "AssetDir_overworld_47xrooms");
    assert_eq!(mangle_path("a-b"), "AssetDir_a_45xb");
}

#[test]
fn resource_kinds_name_their_rust_types() {
    assert_eq!(
        ResourceType::Texture.rust_type(),
        "crate::graphics::texture::Texture"
    );
    assert_eq!(
        ResourceType::Room.rust_type(),
        "crate::overworld::room::PartialCreationParams"
    );
    assert_eq!(
        ResourceType::RustScript.rust_type(),
        "crate::script::rust_script::RustScript"
    );
    assert_eq!(
        ResourceType::PassMap.rust_type(),
        "crate::overworld::pass_map::BitmapPassMap"
    );
}

#[test]
fn a_single_string_literal_parses_to_its_path() {
    let tokens = vec![Token::StrLit(String::from("overworld/player/front"))];
    assert_eq!(
        parse_args(&tokens),
        Ok(Args { path: String::from("overworld/player/front") })
    );
}

#[test]
fn wrong_invocations_are_rejected() {
    assert_eq!(parse_args(&vec![]), Err(ParseError::ExpectedPath));
    assert_eq!(
        parse_args(&vec![
            Token::StrLit(String::from("a")),
            Token::StrLit(String::from("b")),
        ]),
        Err(ParseError::ExpectedPath)
    );
    assert_eq!(
        parse_args(&vec![Token::Plain(String::from("17"))]),
        Err(ParseError::InvalidLiteralKind)
    );
}

#[test]
fn a_manifest_list_parses_entry_by_entry() {
    let tokens = vec![
        Token::StrLit(String::from("overworld/player/front")),
        Token::Plain(String::from(":")),
        Token::Plain(String::from("texture")),
        Token::Plain(String::from(";")),
        Token::StrLit(String::from("home/room")),
        Token::Plain(String::from(":")),
        Token::Plain(String::from("room")),
        Token::Plain(String::from(";")),
        // A trailing partial entry is dropped.
        Token::StrLit(String::from("overworld/rooms/home/room")),
    ];
    let list = parse_list_args(&tokens);
    assert_eq!(
        list.resource_specs,
        vec![
            (String::from("overworld/player/front"), ResourceType::Texture),
            (String::from("home/room"), ResourceType::Room),
        ]
    );
}

#[test]
fn every_resource_kind_is_recognised() {
    let mut tokens = Vec::new();
    for kind in ["texture", "pass_map", "rust_script", "room"] {
        tokens.push(Token::StrLit(String::from("p")));
        tokens.push(Token::Plain(String::from(":")));
        tokens.push(Token::Plain(String::from(kind)));
        tokens.push(Token::Plain(String::from(";")));
    }
    let list = parse_list_args(&tokens);
    let kinds: Vec<ResourceType> = list.resource_specs.iter().map(|s| s.1).collect();
    assert_eq!(
        kinds,
        vec![
            ResourceType::Texture,
            ResourceType::PassMap,
            ResourceType::RustScript,
            ResourceType::Room,
        ]
    );
}
