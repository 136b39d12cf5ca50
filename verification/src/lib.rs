//! Build-time generator for a library of vector icon assets.
//!
//! A directory of raw SVG sources, one subdirectory per visual style, is
//! turned into per-icon source files, a feature-gated module index and a
//! package manifest.  Every step of the transformation is a pure function
//! of its inputs, so a second run over unchanged inputs reproduces the
//! artifacts byte for byte.

use vstd::prelude::*;

pub mod casing;
pub mod chars;
pub mod generate;
pub mod num;
pub mod strings;
pub mod svg;
pub mod taxonomy;
pub mod templates;

verus! {

/// A visual variant of the icon set.  The order of the variants matches the
/// lexicographic order of the style directory names, which fixes the index
/// of each style's slot in every icon's fragment array.
#[derive(Debug, Clone, Copy, PartialEq, Eq, Structural)]
pub enum IconStyle {
    Core,
    Flags,
    Glass,
    MicroBold,
    SocialMedia,
    Ui,
}

/// The slot of a style inside an icon's fragment array.
pub open spec fn style_slot(style: IconStyle) -> int {
    match style {
        IconStyle::Core => 0,
        IconStyle::Flags => 1,
        IconStyle::Glass => 2,
        IconStyle::MicroBold => 3,
        IconStyle::SocialMedia => 4,
        IconStyle::Ui => 5,
    }
}

/// The SVG path data for all styles of a particular icon, one normalized
/// fragment per style, in the fixed style order.
#[derive(Debug, Clone, Copy, PartialEq, Eq)]
pub struct IconStyleData(pub [&'static str; 6]);

impl IconStyleData {
    /// The fragment stored at the given style's slot.
    pub fn get(&self, style: IconStyle) -> (r: &'static str)
        ensures
            r == self.0@[style_slot(style)],
    {
        match style {
            IconStyle::Core => self.0[0],
            IconStyle::Flags => self.0[1],
            IconStyle::Glass => self.0[2],
            IconStyle::MicroBold => self.0[3],
            IconStyle::SocialMedia => self.0[4],
            IconStyle::Ui => self.0[5],
        }
    }
}

pub type IconData = &'static IconStyleData;

} // verus!
