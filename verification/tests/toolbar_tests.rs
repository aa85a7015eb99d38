use ant_colony::food::FoodType;
use ant_colony::toolbar::{ButtonInteraction, DropRequest, SelectedFood};

#[test]
fn pressing_selects() {
    let mut s = SelectedFood { selected: FoodType::Bird };
    s.apply_interaction(ButtonInteraction::Pressed, FoodType::Hotdog);
    assert_eq!(s.selected, FoodType::Hotdog);
}

#[test]
fn hovering_keeps_selection() {
    let mut s = SelectedFood { selected: FoodType::Bird };
    s.apply_interaction(ButtonInteraction::Hovered, FoodType::Marshmallow);
    s.apply_interaction(ButtonInteraction::Idle, FoodType::Hotdog);
    assert_eq!(s.selected, FoodType::Bird);
}

#[test]
fn last_press_wins() {
    let mut s = SelectedFood { selected: FoodType::Bird };
    s.apply_interactions(&[
        (ButtonInteraction::Pressed, FoodType::Hotdog),
        (ButtonInteraction::Pressed, FoodType::Marshmallow),
        (ButtonInteraction::Hovered, FoodType::Bird),
    ]);
    assert_eq!(s.selected, FoodType::Marshmallow);
}

#[test]
fn batch_without_press_keeps_selection() {
    let mut s = SelectedFood { selected: FoodType::Hotdog };
    s.apply_interactions(&[
        (ButtonInteraction::Hovered, FoodType::Bird),
        (ButtonInteraction::Idle, FoodType::Marshmallow),
    ]);
    assert_eq!(s.selected, FoodType::Hotdog);
    s.apply_interactions(&[]);
    assert_eq!(s.selected, FoodType::Hotdog);
}

#[test]
fn drop_request_on_click_in_world() {
    let s = SelectedFood { selected: FoodType::Marshmallow };
    assert_eq!(
        s.drop_request(true, Some((3, -4))),
        Some(DropRequest { position: (3, -4), food_type: FoodType::Marshmallow })
    );
}

#[test]
fn no_drop_without_click_or_world_position() {
    let s = SelectedFood { selected: FoodType::Bird };
    assert_eq!(s.drop_request(false, Some((1, 1))), None);
    assert_eq!(s.drop_request::<(i32, i32)>(true, None), None);
}
