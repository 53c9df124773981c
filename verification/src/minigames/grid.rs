//! Shared inline styling for the grid minigames. The layout is set inline so
//! a centered grid is stable from first paint.

use vstd::prelude::*;

use crate::text::{chars_of, decimal, decimal_chars, push_chars};

verus! {

/// The shared per-cell box. A fixed line height and hidden overflow pin the
/// cell to its aspect ratio, so a glyph cannot grow the row. Each game appends
/// its own border, background and cursor after this base.
pub const CELL_BOX_STYLE: &'static str = "display: flex; align-items: center; justify-content: center; aspect-ratio: 1; font-size: 1.35rem; font-weight: 700; line-height: 1; overflow: hidden; border-radius: 3px;";

/// The grid container's declarations around its column count.
pub open spec fn container_style_spec(cols: nat) -> Seq<char> {
    "display: grid; width: 100%; max-width: 19rem; grid-template-columns: repeat("@ + decimal(cols)
        + ", 1fr); gap: 2px; padding: 4px; border: 1px solid var(--phosphor-dim); border-radius: 4px; background: rgba(20, 95, 40, 0.10);"@
}

/// The grid container: a centered, dim-bordered lattice `cols` cells wide. A
/// game can append its own declarations after this.
pub fn container_style(cols: usize) -> (s: String)
    ensures
        s@ == container_style_spec(cols as nat),
{
    let mut s = String::new();
    push_chars(&mut s, &chars_of("display: grid; width: 100%; max-width: 19rem; grid-template-columns: repeat("));
    push_chars(&mut s, &decimal_chars(cols as u64));
    push_chars(&mut s, &chars_of(", 1fr); gap: 2px; padding: 4px; border: 1px solid var(--phosphor-dim); border-radius: 4px; background: rgba(20, 95, 40, 0.10);"));
    proof {
        assert(Seq::<char>::empty() + "display: grid; width: 100%; max-width: 19rem; grid-template-columns: repeat("@ =~= "display: grid; width: 100%; max-width: 19rem; grid-template-columns: repeat("@);
    }
    s
}

} // verus!
