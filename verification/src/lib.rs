pub mod simulation;
pub mod moments;
pub mod image_moments;
pub mod circ_seq;
pub mod mask;
