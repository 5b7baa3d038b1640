use crate::random::random_index;
use vstd::prelude::*;

verus! {

/// A step on the grid in one of the four cardinal directions. North is towards row 0.
#[derive(Clone, Copy, Debug, PartialEq, Eq)]
pub enum Direction {
    N,
    E,
    S,
    W,
}

impl Direction {
    /// The direction that a movement key stands for: `w` north, `d` east, `s` south, `a` west.
    /// Any other character stands for none.
    pub open spec fn of_key(key: char) -> Option<Direction> {
        if key == 'w' {
            Some(Direction::N)
        } else if key == 'd' {
            Some(Direction::E)
        } else if key == 's' {
            Some(Direction::S)
        } else if key == 'a' {
            Some(Direction::W)
        } else {
            None
        }
    }

    /// Reads a movement key.
    pub fn from_key(key: char) -> (direction: Option<Direction>)
        ensures
            direction == Direction::of_key(key),
    {
        if key == 'w' {
            Some(Direction::N)
        } else if key == 'd' {
            Some(Direction::E)
        } else if key == 's' {
            Some(Direction::S)
        } else if key == 'a' {
            Some(Direction::W)
        } else {
            None
        }
    }

    /// Change of the column index when stepping once in this direction.
    pub open spec fn dx(self) -> int {
        match self {
            Direction::E => 1,
            Direction::W => -1,
            _ => 0,
        }
    }

    /// Change of the row index when stepping once in this direction.
    pub open spec fn dy(self) -> int {
        match self {
            Direction::S => 1,
            Direction::N => -1,
            _ => 0,
        }
    }
}

/// One of the four tints a piece of text can be shown in.
#[derive(Clone, Copy, Debug, PartialEq, Eq)]
pub enum Hue {
    Blue,
    Green,
    Red,
    Magenta,
}

impl Hue {
    /// The tint with the given number: 0 blue, 1 green, 2 red, anything else magenta.
    pub open spec fn of_index(index: int) -> Hue {
        if index == 0 {
            Hue::Blue
        } else if index == 1 {
            Hue::Green
        } else if index == 2 {
            Hue::Red
        } else {
            Hue::Magenta
        }
    }

    /// Picks the tint with the given number.
    pub fn from_index(index: usize) -> (hue: Hue)
        ensures
            hue == Hue::of_index(index as int),
    {
        if index == 0 {
            Hue::Blue
        } else if index == 1 {
            Hue::Green
        } else if index == 2 {
            Hue::Red
        } else {
            Hue::Magenta
        }
    }
}

/// A piece of text together with the tint it is to be shown in.
#[derive(Debug, PartialEq)]
pub enum Color {
    Blue(String),
    Green(String),
    Red(String),
    Magenta(String),
}

impl Clone for Color {
    fn clone(&self) -> (copy: Color)
        ensures
            copy.spec_hue() == self.spec_hue(),
            copy.spec_text() == self.spec_text(),
    {
        match self {
            Color::Blue(text) => Color::Blue(text.clone()),
            Color::Green(text) => Color::Green(text.clone()),
            Color::Red(text) => Color::Red(text.clone()),
            Color::Magenta(text) => Color::Magenta(text.clone()),
        }
    }
}

impl Color {
    /// The tint of this value.
    pub open spec fn spec_hue(&self) -> Hue {
        match self {
            Color::Blue(_) => Hue::Blue,
            Color::Green(_) => Hue::Green,
            Color::Red(_) => Hue::Red,
            Color::Magenta(_) => Hue::Magenta,
        }
    }

    /// The text of this value.
    pub open spec fn spec_text(&self) -> Seq<char> {
        match self {
            Color::Blue(text) => text@,
            Color::Green(text) => text@,
            Color::Red(text) => text@,
            Color::Magenta(text) => text@,
        }
    }

    /// The tint of this value.
    #[verifier::when_used_as_spec(spec_hue)]
    pub fn hue(&self) -> (hue: Hue)
        ensures
            hue == self.spec_hue(),
    {
        match self {
            Color::Blue(_) => Hue::Blue,
            Color::Green(_) => Hue::Green,
            Color::Red(_) => Hue::Red,
            Color::Magenta(_) => Hue::Magenta,
        }
    }

    /// The text of this value.
    pub fn text(&self) -> (text: &str)
        ensures
            text@ == self.spec_text(),
    {
        match self {
            Color::Blue(text) => text.as_str(),
            Color::Green(text) => text.as_str(),
            Color::Red(text) => text.as_str(),
            Color::Magenta(text) => text.as_str(),
        }
    }

    /// `value` in the given tint.
    pub fn tinted(hue: Hue, value: &str) -> (color: Color)
        ensures
            color.spec_hue() == hue,
            color.spec_text() == value@,
    {
        match hue {
            Hue::Blue => Color::Blue(value.to_owned()),
            Hue::Green => Color::Green(value.to_owned()),
            Hue::Red => Color::Red(value.to_owned()),
            Hue::Magenta => Color::Magenta(value.to_owned()),
        }
    }

    /// `value` in a tint drawn at random. Which tint comes out is left open; the text is kept.
    pub fn random(value: &str) -> (color: Color)
        ensures
            color.spec_text() == value@,
    {
        let mut rng = rand::thread_rng();
        let index = random_index(&mut rng, 0, 4);
        Color::tinted(Hue::from_index(index), value)
    }

    /// `value` in green.
    pub fn green(value: &str) -> (color: Color)
        ensures
            color.spec_hue() == Hue::Green,
            color.spec_text() == value@,
    {
        Color::Green(value.to_owned())
    }

    /// `value` in blue.
    pub fn blue(value: &str) -> (color: Color)
        ensures
            color.spec_hue() == Hue::Blue,
            color.spec_text() == value@,
    {
        Color::Blue(value.to_owned())
    }

    /// `value` in red.
    pub fn red(value: &str) -> (color: Color)
        ensures
            color.spec_hue() == Hue::Red,
            color.spec_text() == value@,
    {
        Color::Red(value.to_owned())
    }

    /// `value` in magenta.
    pub fn magenta(value: &str) -> (color: Color)
        ensures
            color.spec_hue() == Hue::Magenta,
            color.spec_text() == value@,
    {
        Color::Magenta(value.to_owned())
    }
}

} // verus!
