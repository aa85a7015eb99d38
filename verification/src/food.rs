use vstd::prelude::*;

verus! {

/// The kinds of food that can be dropped into the world.
#[derive(Clone, Copy, PartialEq, Eq, Structural, Debug)]
pub enum FoodType {
    Bird,
    Hotdog,
    Marshmallow,
}

/// The sprite name of each food kind.
pub open spec fn sprite_name_of(t: FoodType) -> Seq<char> {
    match t {
        FoodType::Bird => "bird"@,
        FoodType::Hotdog => "hotdog"@,
        FoodType::Marshmallow => "marshmallow"@,
    }
}

/// The food kind a sprite name stands for, if any.
pub open spec fn food_of_sprite_name(name: Seq<char>) -> Option<FoodType> {
    if name == "bird"@ {
        Some(FoodType::Bird)
    } else if name == "hotdog"@ {
        Some(FoodType::Hotdog)
    } else if name == "marshmallow"@ {
        Some(FoodType::Marshmallow)
    } else {
        None
    }
}

/// The toolbar icon of each food kind.
pub open spec fn icon_path_of(t: FoodType) -> Seq<char> {
    match t {
        FoodType::Bird => "../assets/icons/bird_icon.png"@,
        FoodType::Hotdog => "../assets/icons/hotdog_icon.png"@,
        FoodType::Marshmallow => "../assets/icons/marshmallow_icon.png"@,
    }
}

/// Whether two strings hold the same characters.
pub fn same_text(a: &str, b: &str) -> (r: bool)
    ensures
        r == (a@ == b@),
{
    let n: usize = a.unicode_len();
    if n != b.unicode_len() {
        return false;
    }
    let mut i: usize = 0;
    while i < n
        invariant
            n == a@.len(),
            n == b@.len(),
            i <= n,
            forall|j: int| 0 <= j < i ==> a@[j] == b@[j],
        decreases n - i,
    {
        if a.get_char(i) != b.get_char(i) {
            return false;
        }
        i = i + 1;
    }
    assert(a@ =~= b@);
    true
}

impl FoodType {
    /// The sprite name under which this food's texture is registered.
    pub fn sprite_name(&self) -> (r: &'static str)
        ensures
            r@ == sprite_name_of(*self),
            *self is Bird ==> r@ == "bird"@,
            *self is Hotdog ==> r@ == "hotdog"@,
            *self is Marshmallow ==> r@ == "marshmallow"@,
    {
        match self {
            FoodType::Bird => "bird",
            FoodType::Hotdog => "hotdog",
            FoodType::Marshmallow => "marshmallow",
        }
    }

    /// The food kind a sprite name stands for; `None` for an unknown name.
    pub fn from_sprite_name(name: &str) -> (r: Option<FoodType>)
        ensures
            r == food_of_sprite_name(name@),
            name@ == "bird"@ ==> r == Some(FoodType::Bird),
            name@ == "hotdog"@ ==> r == Some(FoodType::Hotdog),
            name@ == "marshmallow"@ ==> r == Some(FoodType::Marshmallow),
            name@ != "bird"@ && name@ != "hotdog"@ && name@ != "marshmallow"@ ==> r is None,
    {
        proof {
            reveal_strlit("bird");
            reveal_strlit("hotdog");
            reveal_strlit("marshmallow");
            assert("bird"@.len() == 4);
            assert("hotdog"@.len() == 6);
            assert("marshmallow"@.len() == 11);
        }
        if same_text(name, "bird") {
            Some(FoodType::Bird)
        } else if same_text(name, "hotdog") {
            Some(FoodType::Hotdog)
        } else if same_text(name, "marshmallow") {
            Some(FoodType::Marshmallow)
        } else {
            None
        }
    }

    /// The path of the toolbar icon that shows this food.
    pub fn icon_path(&self) -> (r: &'static str)
        ensures
            r@ == icon_path_of(*self),
            *self is Bird ==> r@ == "../assets/icons/bird_icon.png"@,
            *self is Hotdog ==> r@ == "../assets/icons/hotdog_icon.png"@,
            *self is Marshmallow ==> r@ == "../assets/icons/marshmallow_icon.png"@,
    {
        match self {
            FoodType::Bird => "../assets/icons/bird_icon.png",
            FoodType::Hotdog => "../assets/icons/hotdog_icon.png",
            FoodType::Marshmallow => "../assets/icons/marshmallow_icon.png",
        }
    }
}

/// The loaded food assets: the atlas layout shared by all food sprites and
/// one texture per food kind.
pub struct FoodTextures<L, H> {
    pub food_layout: L,
    pub bird: H,
    pub hotdog: H,
    pub marshmallow: H,
}

impl<L, H> FoodTextures<L, H> {
    /// The texture that belongs to food kind `t`.
    pub open spec fn texture_for(&self, t: FoodType) -> H {
        match t {
            FoodType::Bird => self.bird,
            FoodType::Hotdog => self.hotdog,
            FoodType::Marshmallow => self.marshmallow,
        }
    }

    /// The texture of food kind `t`.
    pub fn texture_of(&self, t: FoodType) -> (r: &H)
        ensures
            *r == self.texture_for(t),
    {
        match t {
            FoodType::Bird => &self.bird,
            FoodType::Hotdog => &self.hotdog,
            FoodType::Marshmallow => &self.marshmallow,
        }
    }

    /// The texture registered under a sprite name; the name must be one of
    /// the food sprite names.
    pub fn get_texture(&self, name: &str) -> (r: &H)
        requires
            food_of_sprite_name(name@) is Some,
        ensures
            *r == self.texture_for(food_of_sprite_name(name@).unwrap()),
            name@ == "bird"@ ==> *r == self.bird,
            name@ == "hotdog"@ ==> *r == self.hotdog,
            name@ == "marshmallow"@ ==> *r == self.marshmallow,
    {
        match FoodType::from_sprite_name(name) {
            Some(t) => self.texture_of(t),
            None => {
                assert(false);
                &self.bird
            },
        }
    }
}

/// Every food kind's sprite name is understood, and names that kind.
pub proof fn lemma_sprite_name_round_trip(t: FoodType)
    ensures
        food_of_sprite_name(sprite_name_of(t)) == Some(t),
{
    reveal_strlit("bird");
    reveal_strlit("hotdog");
    reveal_strlit("marshmallow");
    assert("bird"@.len() == 4);
    assert("hotdog"@.len() == 6);
    assert("marshmallow"@.len() == 11);
}

/// Looking a texture up by a food's sprite name gives that food's own
/// texture, so a dropped food is drawn with the picture of its kind.
pub proof fn lemma_sprite_texture_is_food_texture<L, H>(textures: FoodTextures<L, H>, t: FoodType)
    ensures
        food_of_sprite_name(sprite_name_of(t)) is Some,
        textures.texture_for(food_of_sprite_name(sprite_name_of(t)).unwrap()) == textures.texture_for(t),
{
    lemma_sprite_name_round_trip(t);
}

/// The toolbar offers each food kind once, in the order bird, hotdog,
/// marshmallow.
pub fn toolbar_foods() -> (r: Vec<FoodType>)
    ensures
        r@ == seq![FoodType::Bird, FoodType::Hotdog, FoodType::Marshmallow],
{
    vec![FoodType::Bird, FoodType::Hotdog, FoodType::Marshmallow]
}

} // verus!
