pub mod stain;
