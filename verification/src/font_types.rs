use vstd::prelude::*;
use crate::text::str_eq;

verus! {

/// A text font weight; `NoChange` stands for the empty name ("no change").
#[derive(Debug, Clone, Copy, PartialEq, Eq, Structural)]
pub enum FontWeight {
    Textbf,
    Textmd,
    NoChange,
}

/// A text font shape; `NoChange` stands for the empty name ("no change").
#[derive(Debug, Clone, Copy, PartialEq, Eq, Structural)]
pub enum FontShape {
    Textit,
    Textup,
    NoChange,
}

/// The name under which a font weight is written.
pub open spec fn font_weight_name(w: FontWeight) -> Seq<char> {
    match w {
        FontWeight::Textbf => seq!['t', 'e', 'x', 't', 'b', 'f'],
        FontWeight::Textmd => seq!['t', 'e', 'x', 't', 'm', 'd'],
        FontWeight::NoChange => Seq::empty(),
    }
}

/// The name under which a font shape is written.
pub open spec fn font_shape_name(w: FontShape) -> Seq<char> {
    match w {
        FontShape::Textit => seq!['t', 'e', 'x', 't', 'i', 't'],
        FontShape::Textup => seq!['t', 'e', 'x', 't', 'u', 'p'],
        FontShape::NoChange => Seq::empty(),
    }
}

/// The weight named `name`, if any.
pub open spec fn spec_parse_font_weight(name: Seq<char>) -> Option<FontWeight> {
    if name == font_weight_name(FontWeight::Textbf) {
        Some(FontWeight::Textbf)
    } else if name == font_weight_name(FontWeight::Textmd) {
        Some(FontWeight::Textmd)
    } else if name == font_weight_name(FontWeight::NoChange) {
        Some(FontWeight::NoChange)
    } else {
        None
    }
}

/// The shape named `name`, if any.
pub open spec fn spec_parse_font_shape(name: Seq<char>) -> Option<FontShape> {
    if name == font_shape_name(FontShape::Textit) {
        Some(FontShape::Textit)
    } else if name == font_shape_name(FontShape::Textup) {
        Some(FontShape::Textup)
    } else if name == font_shape_name(FontShape::NoChange) {
        Some(FontShape::NoChange)
    } else {
        None
    }
}

impl FontWeight {
    pub fn as_str(&self) -> (s: &'static str)
        ensures
            s@ == font_weight_name(*self),
    {
        proof {
            reveal_strlit("textbf");
            reveal_strlit("textmd");
            reveal_strlit("");
        }
        match self {
            FontWeight::Textbf => "textbf",
            FontWeight::Textmd => "textmd",
            FontWeight::NoChange => "",
        }
    }

    /// Reads a weight from its name; any other name is refused.
    pub fn from_name(input: &str) -> (r: Result<FontWeight, ()>)
        ensures
            r matches Ok(w) ==> spec_parse_font_weight(input@) == Some(w),
            r is Err <==> spec_parse_font_weight(input@) is None,
    {
        proof {
            reveal_strlit("textbf");
            reveal_strlit("textmd");
            reveal_strlit("");
            assert("textbf"@ =~= font_weight_name(FontWeight::Textbf));
            assert("textmd"@ =~= font_weight_name(FontWeight::Textmd));
            assert(""@ =~= font_weight_name(FontWeight::NoChange));
        }
        if str_eq(input, "textbf") {
            Ok(FontWeight::Textbf)
        } else if str_eq(input, "textmd") {
            Ok(FontWeight::Textmd)
        } else if str_eq(input, "") {
            Ok(FontWeight::NoChange)
        } else {
            Err(())
        }
    }
}

impl FontShape {
    pub fn as_str(&self) -> (s: &'static str)
        ensures
            s@ == font_shape_name(*self),
    {
        proof {
            reveal_strlit("textit");
            reveal_strlit("textup");
            reveal_strlit("");
        }
        match self {
            FontShape::Textit => "textit",
            FontShape::Textup => "textup",
            FontShape::NoChange => "",
        }
    }

    /// Reads a shape from its name; any other name is refused.
    pub fn from_name(input: &str) -> (r: Result<FontShape, ()>)
        ensures
            r matches Ok(w) ==> spec_parse_font_shape(input@) == Some(w),
            r is Err <==> spec_parse_font_shape(input@) is None,
    {
        proof {
            reveal_strlit("textit");
            reveal_strlit("textup");
            reveal_strlit("");
            assert("textit"@ =~= font_shape_name(FontShape::Textit));
            assert("textup"@ =~= font_shape_name(FontShape::Textup));
            assert(""@ =~= font_shape_name(FontShape::NoChange));
        }
        if str_eq(input, "textit") {
            Ok(FontShape::Textit)
        } else if str_eq(input, "textup") {
            Ok(FontShape::Textup)
        } else if str_eq(input, "") {
            Ok(FontShape::NoChange)
        } else {
            Err(())
        }
    }
}

impl core::str::FromStr for FontWeight {
    type Err = ();

    fn from_str(input: &str) -> (r: Result<FontWeight, ()>)
        ensures
            r matches Ok(w) ==> spec_parse_font_weight(input@) == Some(w),
            r is Err <==> spec_parse_font_weight(input@) is None,
    {
        FontWeight::from_name(input)
    }
}

impl core::str::FromStr for FontShape {
    type Err = ();

    fn from_str(input: &str) -> (r: Result<FontShape, ()>)
        ensures
            r matches Ok(w) ==> spec_parse_font_shape(input@) == Some(w),
            r is Err <==> spec_parse_font_shape(input@) is None,
    {
        FontShape::from_name(input)
    }
}

/// Reading back the name of a weight or a shape gives that weight or shape.
pub proof fn law_font_names_round_trip(w: FontWeight, s: FontShape)
    ensures
        spec_parse_font_weight(font_weight_name(w)) == Some(w),
        spec_parse_font_shape(font_shape_name(s)) == Some(s),
{
    assert(font_weight_name(FontWeight::Textbf) != font_weight_name(FontWeight::Textmd)) by {
        assert(font_weight_name(FontWeight::Textbf)[4] != font_weight_name(FontWeight::Textmd)[4]);
    }
    assert(font_shape_name(FontShape::Textit) != font_shape_name(FontShape::Textup)) by {
        assert(font_shape_name(FontShape::Textit)[4] != font_shape_name(FontShape::Textup)[4]);
    }
    assert(font_weight_name(FontWeight::Textbf).len() != 0);
    assert(font_weight_name(FontWeight::Textmd).len() != 0);
    assert(font_shape_name(FontShape::Textit).len() != 0);
    assert(font_shape_name(FontShape::Textup).len() != 0);
}

} // verus!
