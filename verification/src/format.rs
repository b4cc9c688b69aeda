use vstd::prelude::*;

verus! {

/// The image container an operation writes.
#[derive(Debug, PartialEq, Eq, Structural, Clone, Copy, Hash)]
pub enum TextureFormat {
    Png,
    Tiff,
}

impl Default for TextureFormat {
    fn default() -> (r: Self)
        ensures
            r == TextureFormat::Png,
    {
        TextureFormat::Png
    }
}

impl TextureFormat {
    /// The name under which the format is shown and chosen on the command
    /// line.
    pub fn as_str(&self) -> (r: &'static str)
        ensures
            r@ == (match *self {
                TextureFormat::Png => "png"@,
                TextureFormat::Tiff => "tiff"@,
            }),
    {
        match self {
            TextureFormat::Png => "png",
            TextureFormat::Tiff => "tiff",
        }
    }
}

/// How progress and results are reported.
#[derive(Debug, PartialEq, Eq, Structural, Clone, Copy, Hash)]
pub enum DisplayFormat {
    Console,
    Json,
}

impl Default for DisplayFormat {
    fn default() -> (r: Self)
        ensures
            r == DisplayFormat::Console,
    {
        DisplayFormat::Console
    }
}

impl DisplayFormat {
    /// The name under which the display format is shown and chosen on the
    /// command line.
    pub fn as_str(&self) -> (r: &'static str)
        ensures
            r@ == (match *self {
                DisplayFormat::Console => "console"@,
                DisplayFormat::Json => "json"@,
            }),
    {
        match self {
            DisplayFormat::Console => "console",
            DisplayFormat::Json => "json",
        }
    }
}

} // verus!
