//! Packed storage for upper-triangular square matrices: only the entries on
//! or above the diagonal are kept, column after column, in one flat buffer.
pub mod algebra;
pub mod dimension;
pub mod layout;
pub mod scalar;
pub mod upper_tri;
pub mod upper_tri_dyn;
pub mod upper_tri_stc;
pub mod views;
