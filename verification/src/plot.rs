use vstd::prelude::*;

use crate::eval::Expr;

verus! {

// The named plot slots that tab and custom-plot configurations hold. The
// surrounding widgets live with the host UI; the names and expression
// pairs are the part the evaluator works from.

/// One plot of a tab: a display name and its expression pair.
#[derive(Clone, Debug)]
pub struct NamedPlot {
    pub name: String,
    pub expr: Expr,
}

impl NamedPlot {
    pub fn new(name: String, expr: Expr) -> (r: NamedPlot)
        ensures
            r.name@ == name@,
            r.expr == expr,
    {
        NamedPlot { name, expr }
    }
}

/// One user-defined plot of the custom tab.
#[derive(Clone, Debug)]
pub struct CustomPlot {
    pub name: String,
    pub expr: Expr,
}

impl CustomPlot {
    /// A plot with the given name and a still-empty expression pair.
    pub fn named(name: String) -> (r: CustomPlot)
        ensures
            r.name@ == name@,
            r.expr.x@ == ""@,
            r.expr.y@ == ""@,
    {
        CustomPlot { name, expr: Expr::default() }
    }
}

} // verus!
