pub mod params;
