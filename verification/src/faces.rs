//! Colors that the user can set.

use crate::assoc::Assoc;
use crate::strings::{ascii_lowercase, lower, same};
use vstd::prelude::*;

verus! {

/// A basic ANSI color.
#[derive(Debug, Clone, Copy, PartialEq, Eq, Structural)]
pub enum FaceColor {
    Black,
    Red,
    Green,
    Yellow,
    Blue,
    Magenta,
    Cyan,
    White,
}

impl View for FaceColor {
    type V = FaceColor;

    open spec fn view(&self) -> FaceColor {
        *self
    }
}

/// The color of a lower case name.
pub open spec fn color_of(name: Seq<char>) -> Option<FaceColor> {
    if name == "black"@ {
        Some(FaceColor::Black)
    } else if name == "red"@ {
        Some(FaceColor::Red)
    } else if name == "green"@ {
        Some(FaceColor::Green)
    } else if name == "yellow"@ {
        Some(FaceColor::Yellow)
    } else if name == "blue"@ {
        Some(FaceColor::Blue)
    } else if name == "magenta"@ {
        Some(FaceColor::Magenta)
    } else if name == "cyan"@ {
        Some(FaceColor::Cyan)
    } else if name == "white"@ {
        Some(FaceColor::White)
    } else {
        None
    }
}

impl FaceColor {
    /// The color of a name, whatever its case.
    pub fn parse(name: &str) -> (r: Option<Self>)
        ensures
            r == color_of(name@.map_values(|c: char| lower(c))),
    {
        let low = ascii_lowercase(name);
        let s = low.as_str();
        if same(s, "black") {
            Some(FaceColor::Black)
        } else if same(s, "red") {
            Some(FaceColor::Red)
        } else if same(s, "green") {
            Some(FaceColor::Green)
        } else if same(s, "yellow") {
            Some(FaceColor::Yellow)
        } else if same(s, "blue") {
            Some(FaceColor::Blue)
        } else if same(s, "magenta") {
            Some(FaceColor::Magenta)
        } else if same(s, "cyan") {
            Some(FaceColor::Cyan)
        } else if same(s, "white") {
            Some(FaceColor::White)
        } else {
            None
        }
    }
}

/// Background colors of the selected window's mode line and of highlighted
/// spans (region, search match); without one they are shown in reverse video.
/// `line_number` and `line_number_current` color the gutter digits only.
/// `syntax` is the open-ended set of highlight names.
#[derive(Debug)]
pub struct Faces {
    pub mode_line: Option<FaceColor>,
    pub highlight: Option<FaceColor>,
    pub line_number: Option<FaceColor>,
    pub line_number_current: Option<FaceColor>,
    pub syntax: Assoc<FaceColor>,
}

/// What the faces hold.
#[verifier::ext_equal]
pub struct FacesModel {
    pub mode_line: Option<FaceColor>,
    pub highlight: Option<FaceColor>,
    pub line_number: Option<FaceColor>,
    pub line_number_current: Option<FaceColor>,
    pub syntax: Seq<(Seq<char>, FaceColor)>,
}

impl View for Faces {
    type V = FacesModel;

    open spec fn view(&self) -> FacesModel {
        FacesModel {
            mode_line: self.mode_line,
            highlight: self.highlight,
            line_number: self.line_number,
            line_number_current: self.line_number_current,
            syntax: self.syntax@,
        }
    }
}

/// No color set.
pub open spec fn no_faces() -> FacesModel {
    FacesModel {
        mode_line: None,
        highlight: None,
        line_number: None,
        line_number_current: None,
        syntax: Seq::empty(),
    }
}

impl Default for Faces {
    fn default() -> (f: Self)
        ensures
            f@ == no_faces(),
    {
        Faces {
            mode_line: None,
            highlight: None,
            line_number: None,
            line_number_current: None,
            syntax: Assoc::new(),
        }
    }
}

} // verus!
