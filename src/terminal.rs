use vstd::prelude::*;

verus! {

/// Cells of the screen: `width` columns and `height` rows for text.
#[derive(PartialEq, Eq, Structural, Clone, Copy, Debug)]
pub struct Size {
    pub width: u16,
    pub height: u16,
}

/// The screen as the editor lays it out: the text area, with two rows kept
/// for the status bar and the message bar.
pub struct Terminal {
    size: Size,
}

impl Terminal {
    /// The text area of a screen of `columns` by `rows` cells.
    pub fn with_screen(columns: u16, rows: u16) -> (r: Terminal)
        ensures
            r.size_spec() == (Size {
                width: columns,
                height: if rows >= 2 {
                    (rows - 2) as u16
                } else {
                    0
                },
            }),
    {
        Terminal { size: Size { width: columns, height: rows.saturating_sub(2) } }
    }

    pub closed spec fn size_spec(&self) -> Size {
        self.size
    }

    pub fn size(&self) -> (r: &Size)
        ensures
            *r == self.size_spec(),
    {
        &self.size
    }
}

} // verus!
