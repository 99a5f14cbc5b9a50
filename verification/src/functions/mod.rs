use vstd::prelude::*;
use crate::parse_node::Mode;

pub mod accent;
pub mod accentunder;
pub mod op;
pub mod mclass;
pub mod font;
pub mod enclose;
pub mod genfrac;
pub mod hbox;
pub mod href;
pub mod math;
pub mod delimsizing;
pub mod arrow;
pub mod cd;
pub mod horiz_brace;
pub mod htmlmathml;
pub mod mathchoice;
pub mod operatorname;
pub mod overline;
pub mod phantom;
pub mod pmb;
pub mod relax;
pub mod sizing;
pub mod char_code;
pub mod color;
pub mod cr;
pub mod kern;
pub mod raisebox;
pub mod rule;
pub mod lap;
pub mod environment;
pub mod html;
pub mod def;

verus! {

/// What a function handler knows of the parser: the name the function was
/// called by, the current mode and how many `\left` groups are open.
#[derive(Debug)]
pub struct FunctionContext {
    pub func_name: String,
    pub mode: Mode,
    pub left_right_depth: usize,
}

} // verus!
