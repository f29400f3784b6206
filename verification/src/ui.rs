//! The decision core of the interactive prompts.
//!
//! Drawing lists, reading keys and raw-mode handling live in the
//! surrounding application; it hands back the chosen index (or none,
//! for a cancelled prompt), and the choice's meaning is decided here.

use vstd::prelude::*;

use crate::model::Category;

verus! {

/// The category a selection in the category prompt stands for: the
/// categories appear in their fixed order, and a cancelled prompt
/// selects nothing.
pub fn select_category(choice: Option<usize>) -> (r: Option<Category>)
    ensures
        r == match choice {
            Some(i) => {
                if i == 0 {
                    Some(Category::IndividualSupervision)
                } else if i == 1 {
                    Some(Category::GroupSupervision)
                } else if i == 2 {
                    Some(Category::Direct)
                } else if i == 3 {
                    Some(Category::Indirect)
                } else {
                    None
                }
            },
            None => None,
        },
{
    match choice {
        Some(i) => {
            if i < 4 {
                Some(Category::ALL[i])
            } else {
                None
            }
        },
        None => None,
    }
}

} // verus!
