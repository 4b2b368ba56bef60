//! Text that the project's write-up page needs from the library.
use vstd::prelude::*;

verus! {

/// The script that the write-up page evaluates before it renders, so that
/// its math typesetter takes `$...$` and `\(...\)` as inline formulas.
pub const MATH_CONFIG: &'static str = "MathJax = {
        tex: {
            inlineMath: [['$', '$'], ['\\(', '\\)']]
        }
    };";

/// The configuration script that the write-up page evaluates on start.
pub fn app() -> (r: String)
    ensures
        r@ == MATH_CONFIG@,
{
    MATH_CONFIG.to_owned()
}

} // verus!
