//! Text console drawn on a linear framebuffer with a PSF2 bitmap font.
pub mod terminal;
