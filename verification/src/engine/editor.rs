//! State of the editor's inspector panel.
use vstd::prelude::*;

verus! {

#[derive(Clone, Copy, Debug)]
pub struct EditorState {
    pub show_stats: bool,
    pub selected_entity: Option<u64>,
}

impl Default for EditorState {
    /// Statistics hidden, nothing selected.
    fn default() -> (s: Self)
        ensures
            !s.show_stats,
            s.selected_entity is None,
    {
        EditorState { show_stats: false, selected_entity: None }
    }
}

} // verus!
