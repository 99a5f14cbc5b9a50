use vstd::prelude::*;
use crate::text::{str_eq, string_of};

verus! {

/// The output that rendering produces.
#[derive(Debug, Clone, Copy, PartialEq, Eq, Structural)]
pub enum OutputType {
    /// HTML only.
    Html,
    /// MathML only.
    Mathml,
    /// HTML for display and MathML for accessibility.
    HtmlAndMathml,
}

pub open spec fn output_type_name(t: OutputType) -> Seq<char> {
    match t {
        OutputType::Html => seq!['h', 't', 'm', 'l'],
        OutputType::Mathml => seq!['m', 'a', 't', 'h', 'm', 'l'],
        OutputType::HtmlAndMathml => seq![
            'h', 't', 'm', 'l', 'A', 'n', 'd', 'M', 'a', 't', 'h', 'm', 'l'
        ],
    }
}

impl OutputType {
    /// Reads an output type from its option name.
    pub fn from_name(input: &str) -> (r: Result<OutputType, ()>)
        ensures
            r matches Ok(t) ==> output_type_name(t) == input@,
            r is Err <==> (forall|t: OutputType| output_type_name(t) != input@),
    {
        proof {
            reveal_strlit("html");
            reveal_strlit("mathml");
            reveal_strlit("htmlAndMathml");
            assert("html"@ =~= output_type_name(OutputType::Html));
            assert("mathml"@ =~= output_type_name(OutputType::Mathml));
            assert("htmlAndMathml"@ =~= output_type_name(OutputType::HtmlAndMathml));
        }
        if str_eq(input, "html") {
            Ok(OutputType::Html)
        } else if str_eq(input, "mathml") {
            Ok(OutputType::Mathml)
        } else if str_eq(input, "htmlAndMathml") {
            Ok(OutputType::HtmlAndMathml)
        } else {
            proof {
                assert forall|t: OutputType| output_type_name(t) != input@ by {
                    match t {
                        OutputType::Html => {},
                        OutputType::Mathml => {},
                        OutputType::HtmlAndMathml => {},
                    }
                }
            }
            Err(())
        }
    }
}

impl core::str::FromStr for OutputType {
    type Err = ();

    fn from_str(input: &str) -> (r: Result<OutputType, ()>)
        ensures
            r matches Ok(t) ==> output_type_name(t) == input@,
            r is Err <==> (forall|t: OutputType| output_type_name(t) != input@),
    {
        OutputType::from_name(input)
    }
}

/// Rendering options. The numeric limits that are real numbers (minimum rule
/// thickness, maximum size) are kept by the caller.
#[derive(Debug)]
pub struct Settings {
    pub display_mode: bool,
    pub output_type: OutputType,
    pub leqno: bool,
    pub fleqn: bool,
    pub throw_on_error: bool,
    pub error_color: String,
    /// Custom macros, as pairs of name and expansion text.
    pub macros: Vec<(String, String)>,
    pub max_expand: Option<i32>,
    pub trust: bool,
}

impl Settings {
    /// The settings used when none are given.
    pub fn new() -> (s: Settings)
        ensures
            !s.display_mode,
            s.output_type == OutputType::Html,
            !s.leqno,
            !s.fleqn,
            !s.throw_on_error,
            s.error_color@ == seq!['#', 'c', 'c', '0', '0', '0', '0'],
            s.macros@.len() == 0,
            s.max_expand is None,
            !s.trust,
    {
        proof {
            reveal_strlit("#cc0000");
            assert("#cc0000"@ =~= seq!['#', 'c', 'c', '0', '0', '0', '0']);
        }
        let c = string_of("#cc0000");
        Settings {
            display_mode: false,
            output_type: OutputType::Html,
            leqno: false,
            fleqn: false,
            throw_on_error: false,
            error_color: c,
            macros: Vec::new(),
            max_expand: None,
            trust: false,
        }
    }

    pub fn set_display_mode(&mut self, flag: bool)
        ensures
            final(self).display_mode == flag,
            final(self).output_type == old(self).output_type,
            final(self).leqno == old(self).leqno,
            final(self).fleqn == old(self).fleqn,
            final(self).throw_on_error == old(self).throw_on_error,
            final(self).error_color == old(self).error_color,
            final(self).macros == old(self).macros,
            final(self).max_expand == old(self).max_expand,
            final(self).trust == old(self).trust,
    {
        self.display_mode = flag;
    }

    pub fn set_output_type(&mut self, output_type: OutputType)
        ensures
            *final(self) == (Settings { output_type, ..*old(self) }),
    {
        self.output_type = output_type;
    }

    pub fn set_leqno(&mut self, flag: bool)
        ensures
            *final(self) == (Settings { leqno: flag, ..*old(self) }),
    {
        self.leqno = flag;
    }

    pub fn set_fleqn(&mut self, flag: bool)
        ensures
            *final(self) == (Settings { fleqn: flag, ..*old(self) }),
    {
        self.fleqn = flag;
    }

    pub fn set_throw_on_error(&mut self, flag: bool)
        ensures
            *final(self) == (Settings { throw_on_error: flag, ..*old(self) }),
    {
        self.throw_on_error = flag;
    }

    pub fn set_error_color(&mut self, color: String)
        ensures
            *final(self) == (Settings { error_color: color, ..*old(self) }),
    {
        self.error_color = color;
    }

    /// Adds a custom macro.
    pub fn add_macro(&mut self, entry_name: String, entry_data: String)
        ensures
            final(self).macros@ == old(self).macros@.push((entry_name, entry_data)),
            final(self).display_mode == old(self).display_mode,
            final(self).leqno == old(self).leqno,
            final(self).trust == old(self).trust,
    {
        self.macros.push((entry_name, entry_data));
    }

    pub fn set_max_expand(&mut self, max_expand: Option<i32>)
        ensures
            *final(self) == (Settings { max_expand, ..*old(self) }),
    {
        self.max_expand = max_expand;
    }

    pub fn set_trust(&mut self, flag: bool)
        ensures
            *final(self) == (Settings { trust: flag, ..*old(self) }),
    {
        self.trust = flag;
    }

    pub fn get_display_mode(&self) -> (b: bool)
        ensures
            b == self.display_mode,
    {
        self.display_mode
    }

    pub fn get_leqno(&self) -> (b: bool)
        ensures
            b == self.leqno,
    {
        self.leqno
    }

    /// Whether to apply strict behavior for unusual input; this version never
    /// does.
    #[allow(non_snake_case)]
    pub fn useStrictBehavior(&self, error_code: &str, error_msg: &str) -> (b: bool)
        ensures
            !b,
    {
        false
    }

    /// Whether a potentially dangerous command is trusted; this version trusts
    /// none.
    #[allow(non_snake_case)]
    pub fn isTrusted(&self, command: &str) -> (b: bool)
        ensures
            !b,
    {
        false
    }
}

} // verus!
