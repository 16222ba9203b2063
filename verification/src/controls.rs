//! What the viewer's console commands act on: which variable a command
//! names, and which colour functions animate over time.
use crate::text::chars_of;
use vstd::prelude::*;

verus! {

/// A variable of the viewer that console commands can change.
#[derive(Clone, Copy, Debug, PartialEq, Eq)]
pub enum Variable {
    /// `s`: the zoom scale of the view.
    Scale,
    /// `x`: the horizontal coordinate of the view's centre.
    CenterX,
    /// `y`: the vertical coordinate of the view's centre.
    CenterY,
    /// `i`: the iteration limit of the fractal.
    MaxIterations,
    /// `z`: the zoom speed used while zooming.
    ZoomScale,
    /// `c`: the colour function.
    ColorFunction,
}

/// The variable that an update (`name<op>=value`) may change. The colour
/// function is only ever assigned, never updated.
pub open spec fn update_variable(name: Seq<char>) -> Option<Variable> {
    if name == seq!['s'] {
        Some(Variable::Scale)
    } else if name == seq!['x'] {
        Some(Variable::CenterX)
    } else if name == seq!['y'] {
        Some(Variable::CenterY)
    } else if name == seq!['i'] {
        Some(Variable::MaxIterations)
    } else if name == seq!['z'] {
        Some(Variable::ZoomScale)
    } else {
        None
    }
}

/// The variable that an assignment (`name=value`) may change.
pub open spec fn assign_variable(name: Seq<char>) -> Option<Variable> {
    if name == seq!['c'] {
        Some(Variable::ColorFunction)
    } else {
        update_variable(name)
    }
}

/// The colour functions that change with time, so that the view must be
/// drawn again and again while one of them is selected.
pub open spec fn continuous_color_function(id: int) -> bool {
    id == 4 || id == 5 || id == 6
}

/// The single character of `name`, if it has exactly one.
fn single_char(name: &String) -> (c: Option<char>)
    ensures
        c matches Some(ch) ==> name@ == seq![ch] && name@.len() == 1 && name@[0] == ch,
        c is None ==> name@.len() != 1,
{
    let chars = chars_of(name.as_str());
    if chars.len() == 1 {
        assert(chars@ =~= seq![chars@[0]]);
        Some(chars[0])
    } else {
        None
    }
}

/// The variable named by an update command, or `None` for an unknown name.
pub fn variable_to_update(name: &String) -> (v: Option<Variable>)
    ensures
        v == update_variable(name@),
{
    match single_char(name) {
        Some('s') => Some(Variable::Scale),
        Some('x') => Some(Variable::CenterX),
        Some('y') => Some(Variable::CenterY),
        Some('i') => Some(Variable::MaxIterations),
        Some('z') => Some(Variable::ZoomScale),
        _ => None,
    }
}

/// The variable named by an assignment command, or `None` for an unknown name.
pub fn variable_to_assign(name: &String) -> (v: Option<Variable>)
    ensures
        v == assign_variable(name@),
{
    match single_char(name) {
        Some('c') => Some(Variable::ColorFunction),
        _ => variable_to_update(name),
    }
}

/// Whether the colour function `id` changes with time.
pub fn is_continuous_color_function(id: i32) -> (b: bool)
    ensures
        b == continuous_color_function(id as int),
{
    let continuous_color_functions: [i32; 3] = [4, 5, 6];
    let mut k: usize = 0;
    while k < 3
        invariant
            k <= 3,
            continuous_color_functions@ == seq![4i32, 5i32, 6i32],
            forall|j: int| 0 <= j < k ==> continuous_color_functions@[j] != id,
        decreases 3 - k,
    {
        if continuous_color_functions[k] == id {
            return true;
        }
        k = k + 1;
    }
    false
}

/// Each variable has exactly one name: `s` the scale, `x` and `y` the
/// horizontal and vertical centre, `i` the iteration limit, `z` the zoom
/// speed and `c` the colour function. Assignment and update name the same
/// variables, except that the colour function can only be assigned; every
/// other name names nothing.
pub proof fn lemma_variable_names(name: Seq<char>)
    ensures
        (assign_variable(name) == Some(Variable::Scale)) <==> name == seq!['s'],
        (assign_variable(name) == Some(Variable::CenterX)) <==> name == seq!['x'],
        (assign_variable(name) == Some(Variable::CenterY)) <==> name == seq!['y'],
        (assign_variable(name) == Some(Variable::MaxIterations)) <==> name == seq!['i'],
        (assign_variable(name) == Some(Variable::ZoomScale)) <==> name == seq!['z'],
        (assign_variable(name) == Some(Variable::ColorFunction)) <==> name == seq!['c'],
        name != seq!['c'] ==> update_variable(name) == assign_variable(name),
        update_variable(name) != Some(Variable::ColorFunction),
{
    let names = seq![seq!['s'], seq!['x'], seq!['y'], seq!['i'], seq!['z'], seq!['c']];
    assert forall|a: int, b: int| 0 <= a < 6 && 0 <= b < 6 && a != b implies names[a]
        != names[b] by {
        assert(names[a][0] != names[b][0]);
    }
    assert(names[0] != names[1] && names[0] != names[2] && names[0] != names[3]);
    assert(names[0] != names[4] && names[0] != names[5] && names[1] != names[2]);
    assert(names[1] != names[3] && names[1] != names[4] && names[1] != names[5]);
    assert(names[2] != names[3] && names[2] != names[4] && names[2] != names[5]);
    assert(names[3] != names[4] && names[3] != names[5] && names[4] != names[5]);
}

/// Different names never name the same variable.
pub proof fn lemma_names_distinct(a: Seq<char>, b: Seq<char>)
    requires
        assign_variable(a) is Some,
        assign_variable(a) == assign_variable(b),
    ensures
        a == b,
{
    lemma_variable_names(a);
    lemma_variable_names(b);
}

} // verus!
