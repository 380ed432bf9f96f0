//! The skill tree window that lists the learnable skills and those learned.

use vstd::prelude::*;

verus! {

/// The skill tree window, showing the layout at `layout_path` and the skills
/// at `skills_path`.
pub struct SkillTreeWindow<A, B> {
    pub layout_path: A,
    pub skills_path: B,
}

impl<A, B> SkillTreeWindow<A, B> {
    pub fn new(layout_path: A, skills_path: B) -> (window: Self)
        ensures
            window.layout_path == layout_path,
            window.skills_path == skills_path,
    {
        Self { layout_path, skills_path }
    }
}

} // verus!
