use cacao_engine::{sanitize_filename, sanitize_game_id};

#[test]
fn sanitize_keeps_alphanumerics_dash_underscore() {
    assert_eq!(sanitize_filename("Demo-Game_1"), "Demo-Game_1");
}

#[test]
fn sanitize_maps_spaces_and_punctuation_to_underscore() {
    assert_eq!(sanitize_filename("Demo Game"), "Demo_Game");
    assert_eq!(sanitize_filename("My Game!"), "My_Game_");
    assert_eq!(sanitize_filename("a/b\\c:d"), "a_b_c_d");
}

#[test]
fn sanitize_maps_unicode_to_underscore() {
    assert_eq!(sanitize_filename("café"), "caf_");
}

#[test]
fn sanitize_game_id_uses_the_same_rule() {
    assert_eq!(sanitize_game_id("my game.id"), "my_game_id");
}
