pub mod decimal;
pub mod picture;
pub mod raster;
pub mod shading;
