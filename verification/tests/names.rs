use emoji_pack::names::base_name;
use emoji_pack::names::derive_category;
use emoji_pack::names::derive_name;

#[test]
fn derive_name_lowercases_strips_and_underscores() {
    assert_eq!(derive_name("Happy Face.PNG"), "happy_face");
}

#[test]
fn derive_name_handles_hyphens() {
    assert_eq!(derive_name("My-Emoji v2.gif"), "my_emoji_v2");
}

#[test]
fn derive_name_is_idempotent() {
    let inputs = ["My-Emoji v2.PNG", "weird..name...jpeg", "UPPER CASE-thing.bmp", "plain"];
    for input in inputs {
        let once = derive_name(input);
        assert_eq!(derive_name(&once), once);
    }
}

#[test]
fn derive_name_never_keeps_space_hyphen_or_dot() {
    let inputs = ["a b-c.d.png", " - . - ", "...", "Sp ace.and-hyphen.webp", "x"];
    for input in inputs {
        let name = derive_name(input);
        assert!(!name.contains(' '), "space left in {:?}", name);
        assert!(!name.contains('-'), "hyphen left in {:?}", name);
        assert!(!name.contains('.'), "dot left in {:?}", name);
    }
}

#[test]
fn derive_name_strips_only_the_trailing_extension() {
    assert_eq!(derive_name("png.png"), "png");
    assert_eq!(derive_name("a.b.c.gif"), "abc");
}

#[test]
fn derive_name_keeps_leading_dot_names_whole() {
    assert_eq!(derive_name(".Profile"), "profile");
}

#[test]
fn derive_category_at_root_has_empty_remainder() {
    assert_eq!(derive_category("Custom", "face.png"), "Custom - ");
}

#[test]
fn derive_category_strips_separators_and_dots() {
    assert_eq!(derive_category("Team", "icons/happy.PNG"), "Team - icons");
    assert_eq!(derive_category("Team", "icons/v2.0/x.png"), "Team - iconsv20");
}

#[test]
fn base_name_takes_what_follows_the_last_separator() {
    assert_eq!(base_name("icons/happy.PNG"), "happy.PNG");
    assert_eq!(base_name("x.png"), "x.png");
    assert_eq!(base_name("a/b/c.gif"), "c.gif");
}
