use vstd::prelude::*;

verus! {

/// The pens of the palette and the one in hand. A pen is whatever the drawing code
/// needs of it (its color and width).
pub struct ColorPalette<P> {
    /// The pen in hand.
    pub pen: P,
    pub palette: Vec<P>,
    /// Whether the palette's colors are being edited.
    pub is_editing: bool,
}

impl<P: Copy> ColorPalette<P> {
    /// A palette with no pens, `pen` in hand, not being edited.
    pub fn new(pen: P) -> (r: ColorPalette<P>)
        ensures
            r.pen == pen,
            r.palette@.len() == 0,
            !r.is_editing,
    {
        ColorPalette { pen, palette: Vec::new(), is_editing: false }
    }

    /// Takes pen `index` of the palette in hand.
    pub fn select_pen(&mut self, index: usize)
        requires
            index < old(self).palette@.len(),
        ensures
            final(self).pen == old(self).palette@[index as int],
            final(self).palette@ == old(self).palette@,
            final(self).is_editing == old(self).is_editing,
    {
        self.pen = self.palette[index];
    }

    /// Adds `pen` at the end of the palette; saving the palette is left to the caller.
    pub fn add_pen_to_palette(&mut self, pen: P)
        ensures
            final(self).palette@ == old(self).palette@.push(pen),
            final(self).pen == old(self).pen,
            final(self).is_editing == old(self).is_editing,
    {
        self.palette.push(pen);
    }

    /// Starts or stops editing the palette's colors.
    pub fn toggle_editing(&mut self)
        ensures
            final(self).is_editing == !old(self).is_editing,
            final(self).palette@ == old(self).palette@,
            final(self).pen == old(self).pen,
    {
        self.is_editing = !self.is_editing;
    }
}

} // verus!
