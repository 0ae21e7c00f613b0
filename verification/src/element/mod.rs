pub mod sphere;
