use ant_colony::food::{same_text, toolbar_foods, FoodTextures, FoodType};

#[test]
fn sprite_names() {
    assert_eq!(FoodType::Bird.sprite_name(), "bird");
    assert_eq!(FoodType::Hotdog.sprite_name(), "hotdog");
    assert_eq!(FoodType::Marshmallow.sprite_name(), "marshmallow");
}

#[test]
fn sprite_name_round_trip() {
    for t in [FoodType::Bird, FoodType::Hotdog, FoodType::Marshmallow] {
        assert_eq!(FoodType::from_sprite_name(t.sprite_name()), Some(t));
    }
}

#[test]
fn unknown_sprite_names() {
    assert_eq!(FoodType::from_sprite_name("pizza"), None);
    assert_eq!(FoodType::from_sprite_name(""), None);
    assert_eq!(FoodType::from_sprite_name("Bird"), None);
    assert_eq!(FoodType::from_sprite_name("birds"), None);
}

#[test]
fn icon_paths() {
    assert_eq!(FoodType::Bird.icon_path(), "../assets/icons/bird_icon.png");
    assert_eq!(FoodType::Hotdog.icon_path(), "../assets/icons/hotdog_icon.png");
    assert_eq!(FoodType::Marshmallow.icon_path(), "../assets/icons/marshmallow_icon.png");
}

#[test]
fn same_text_compares_characters() {
    assert!(same_text("hotdog", "hotdog"));
    assert!(!same_text("hotdog", "hotdox"));
    assert!(!same_text("hot", "hotdog"));
    assert!(same_text("", ""));
    assert!(same_text("äöü", "äöü"));
}

fn textures() -> FoodTextures<&'static str, u32> {
    FoodTextures { food_layout: "layout", bird: 1, hotdog: 2, marshmallow: 3 }
}

#[test]
fn get_texture_by_name() {
    let t = textures();
    assert_eq!(*t.get_texture("bird"), 1);
    assert_eq!(*t.get_texture("hotdog"), 2);
    assert_eq!(*t.get_texture("marshmallow"), 3);
}

#[test]
fn texture_of_food_sprite_is_food_texture() {
    let t = textures();
    for f in [FoodType::Bird, FoodType::Hotdog, FoodType::Marshmallow] {
        assert_eq!(t.get_texture(f.sprite_name()), t.texture_of(f));
    }
}

#[test]
fn toolbar_order() {
    assert_eq!(toolbar_foods(), vec![FoodType::Bird, FoodType::Hotdog, FoodType::Marshmallow]);
}
