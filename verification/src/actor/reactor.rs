pub mod animation;
