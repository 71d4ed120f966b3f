//! The five tile and material colors, with their stable indices.
use vstd::prelude::*;

verus! {

/// A color of a tile, a material or the cauldron liquid.
#[derive(Debug, Copy, Clone, PartialEq, Eq, Structural)]
pub enum Color {
    /// Fire
    Red,
    /// Ice
    Blue,
    /// Leaf
    Green,
    /// Bolt
    Yellow,
    /// Holy
    White,
}

impl Color {
    /// The stable index of the color, 0 through 4.
    pub open spec fn index(self) -> int {
        match self {
            Color::Red => 0,
            Color::Blue => 1,
            Color::Green => 2,
            Color::Yellow => 3,
            Color::White => 4,
        }
    }

    pub fn get_index(self) -> (r: usize)
        ensures
            r == self.index(),
    {
        match self {
            Color::Red => 0,
            Color::Blue => 1,
            Color::Green => 2,
            Color::Yellow => 3,
            Color::White => 4,
        }
    }

    pub fn from_index(index: i32) -> (r: Self)
        requires
            0 <= index <= 4,
        ensures
            r.index() == index,
    {
        match index {
            0 => Color::Red,
            1 => Color::Blue,
            2 => Color::Green,
            3 => Color::Yellow,
            _ => Color::White,
        }
    }

    /// Reads a color from the game data's material color tag.
    pub fn from_mat_color_tag(tag: &str) -> (r: Self)
        requires
            tag@ == "ITEM_MAT_COLOR_RED"@ || tag@ == "ITEM_MAT_COLOR_BLUE"@ || tag@
                == "ITEM_MAT_COLOR_GREEN"@ || tag@ == "ITEM_MAT_COLOR_YELLOW"@ || tag@
                == "ITEM_MAT_COLOR_WHITE"@,
        ensures
            tag@ == "ITEM_MAT_COLOR_RED"@ ==> r == Color::Red,
            tag@ == "ITEM_MAT_COLOR_BLUE"@ ==> r == Color::Blue,
            tag@ == "ITEM_MAT_COLOR_GREEN"@ ==> r == Color::Green,
            tag@ == "ITEM_MAT_COLOR_YELLOW"@ ==> r == Color::Yellow,
            tag@ == "ITEM_MAT_COLOR_WHITE"@ ==> r == Color::White,
    {
        proof {
            reveal_strlit("ITEM_MAT_COLOR_RED");
            reveal_strlit("ITEM_MAT_COLOR_BLUE");
            reveal_strlit("ITEM_MAT_COLOR_GREEN");
            reveal_strlit("ITEM_MAT_COLOR_YELLOW");
            reveal_strlit("ITEM_MAT_COLOR_WHITE");
            assert("ITEM_MAT_COLOR_RED"@.len() == 18);
            assert("ITEM_MAT_COLOR_BLUE"@.len() == 19);
            assert("ITEM_MAT_COLOR_GREEN"@.len() == 20);
            assert("ITEM_MAT_COLOR_YELLOW"@.len() == 21);
            assert("ITEM_MAT_COLOR_WHITE"@.len() == 20);
            assert("ITEM_MAT_COLOR_GREEN"@[15] == 'G');
            assert("ITEM_MAT_COLOR_WHITE"@[15] == 'W');
        }
        if str_eq(tag, "ITEM_MAT_COLOR_RED") {
            Color::Red
        } else if str_eq(tag, "ITEM_MAT_COLOR_BLUE") {
            Color::Blue
        } else if str_eq(tag, "ITEM_MAT_COLOR_GREEN") {
            Color::Green
        } else if str_eq(tag, "ITEM_MAT_COLOR_YELLOW") {
            Color::Yellow
        } else {
            Color::White
        }
    }
}

/// Relies on str's equality: true exactly when the two strings hold the
/// same characters.
#[verifier::external_body]
fn str_eq(a: &str, b: &str) -> (r: bool)
    ensures
        r == (a@ == b@),
{
    a == b
}

/// The color with the given stable index.
pub open spec fn spec_color_of_index(i: int) -> Color {
    if i == 0 {
        Color::Red
    } else if i == 1 {
        Color::Blue
    } else if i == 2 {
        Color::Green
    } else if i == 3 {
        Color::Yellow
    } else {
        Color::White
    }
}

/// Index and color determine each other.
pub proof fn lemma_color_of_index(c: Color)
    ensures
        spec_color_of_index(c.index()) == c,
{
}

} // verus!
