use vstd::prelude::*;

verus! {

/// A TeX math style: display, text, script or scriptscript, each plain or
/// cramped. `id` numbers the eight styles in that order; `size` is 0 for
/// display up to 3 for scriptscript.
#[derive(Debug, Clone, Copy, PartialEq, Eq, Structural)]
pub struct StyleInterface {
    pub id: usize,
    pub size: i32,
    pub cramped: bool,
}

pub const D: usize = 0;
pub const DC: usize = 1;
pub const T: usize = 2;
pub const TC: usize = 3;
pub const S: usize = 4;
pub const SC: usize = 5;
pub const SS: usize = 6;
pub const SSC: usize = 7;

/// The style numbered `id` in the table of the eight styles.
pub open spec fn spec_style(id: usize) -> StyleInterface {
    StyleInterface { id, size: (id / 2) as i32, cramped: id % 2 == 1 }
}

pub open spec fn spec_sup(id: usize) -> usize {
    if id < 4 { if id % 2 == 0 { S } else { SC } } else { if id % 2 == 0 { SS } else { SSC } }
}

pub open spec fn spec_sub(id: usize) -> usize {
    if id < 4 { SC } else { SSC }
}

pub open spec fn spec_frac_num(id: usize) -> usize {
    if id < 2 { if id % 2 == 0 { T } else { TC } }
    else if id < 4 { if id % 2 == 0 { S } else { SC } }
    else { if id % 2 == 0 { SS } else { SSC } }
}

pub open spec fn spec_frac_den(id: usize) -> usize {
    if id < 2 { TC } else if id < 4 { SC } else { SSC }
}

pub open spec fn spec_cramp(id: usize) -> usize {
    if id % 2 == 0 { (id + 1) as usize } else { id }
}

pub open spec fn spec_text(id: usize) -> usize {
    if id < 2 { id } else if id % 2 == 0 { T } else { TC }
}

impl StyleInterface {
    /// A style is one of the eight table entries.
    pub open spec fn wf(self) -> bool {
        self.id < 8
    }

    /// The table entry numbered `id`.
    pub fn from_id(id: usize) -> (s: StyleInterface)
        requires
            id < 8,
        ensures
            s == spec_style(id),
            s.wf(),
    {
        StyleInterface { id, size: (id / 2) as i32, cramped: id % 2 == 1 }
    }

    /// A style value with the given fields, as given.
    pub fn new(id: usize, size: i32, cramped: bool) -> (s: StyleInterface)
        ensures
            s == (StyleInterface { id, size, cramped }),
    {
        StyleInterface { id, size, cramped }
    }

    /// The style of a superscript over a base in this style.
    pub fn sup(&self) -> (s: StyleInterface)
        requires
            self.wf(),
        ensures
            s == spec_style(spec_sup(self.id)),
    {
        let id = if self.id < 4 {
            if self.id % 2 == 0 { S } else { SC }
        } else {
            if self.id % 2 == 0 { SS } else { SSC }
        };
        Self::from_id(id)
    }

    /// The style of a subscript under a base in this style.
    pub fn sub(&self) -> (s: StyleInterface)
        requires
            self.wf(),
        ensures
            s == spec_style(spec_sub(self.id)),
    {
        let id = if self.id < 4 { SC } else { SSC };
        Self::from_id(id)
    }

    /// The style of a fraction's numerator.
    #[allow(non_snake_case)]
    pub fn fracNum(&self) -> (s: StyleInterface)
        requires
            self.wf(),
        ensures
            s == spec_style(spec_frac_num(self.id)),
    {
        let id = if self.id < 2 {
            if self.id % 2 == 0 { T } else { TC }
        } else if self.id < 4 {
            if self.id % 2 == 0 { S } else { SC }
        } else {
            if self.id % 2 == 0 { SS } else { SSC }
        };
        Self::from_id(id)
    }

    /// The style of a fraction's denominator.
    #[allow(non_snake_case)]
    pub fn fracDen(&self) -> (s: StyleInterface)
        requires
            self.wf(),
        ensures
            s == spec_style(spec_frac_den(self.id)),
    {
        let id = if self.id < 2 { TC } else if self.id < 4 { SC } else { SSC };
        Self::from_id(id)
    }

    /// The cramped version of this style.
    pub fn cramp(&self) -> (s: StyleInterface)
        requires
            self.wf(),
        ensures
            s == spec_style(spec_cramp(self.id)),
    {
        let id = if self.id % 2 == 0 { self.id + 1 } else { self.id };
        Self::from_id(id)
    }

    /// The text or display version of this style.
    pub fn text(&self) -> (s: StyleInterface)
        requires
            self.wf(),
        ensures
            s == spec_style(spec_text(self.id)),
    {
        let id = if self.id < 2 { self.id } else if self.id % 2 == 0 { T } else { TC };
        Self::from_id(id)
    }

    /// Whether the style is tightly spaced (script or scriptscript).
    #[allow(non_snake_case)]
    pub fn isTight(&self) -> (b: bool)
        ensures
            b == (self.size >= 2),
    {
        self.size >= 2
    }
}

/// Cramping a cramped style changes nothing, and the result is cramped.
pub proof fn law_cramp_idempotent(id: usize)
    requires
        id < 8,
    ensures
        spec_cramp(spec_cramp(id)) == spec_cramp(id),
        spec_style(spec_cramp(id)).cramped,
        spec_style(spec_cramp(id)).size == spec_style(id).size,
{
}

/// A subscript's style is the cramped superscript style, and a
/// denominator's style is the cramped numerator style.
pub proof fn law_sub_and_den_are_cramped(id: usize)
    requires
        id < 8,
    ensures
        spec_sub(id) == spec_cramp(spec_sup(id)),
        spec_frac_den(id) == spec_cramp(spec_frac_num(id)),
        spec_style(spec_sub(id)).cramped,
        spec_style(spec_frac_den(id)).cramped,
{
}

/// Scripts and fraction parts are never larger than their parent style,
/// and cramping is kept by every derived style.
pub proof fn law_derived_styles_shrink(id: usize)
    requires
        id < 8,
    ensures
        spec_style(spec_sup(id)).size >= spec_style(id).size,
        spec_style(spec_sub(id)).size >= spec_style(id).size,
        spec_style(spec_frac_num(id)).size >= spec_style(id).size,
        spec_style(spec_frac_den(id)).size >= spec_style(id).size,
        spec_style(spec_sup(id)).size >= 2,
        spec_style(id).cramped ==> spec_style(spec_sup(id)).cramped,
        spec_style(id).cramped ==> spec_style(spec_frac_num(id)).cramped,
        spec_style(id).cramped ==> spec_style(spec_text(id)).cramped,
        spec_style(spec_text(id)).size <= 1,
{
}

} // verus!
